//! Opening the objects of a store, and reading the records about them.
use crate::errors::FxfsError;
use crate::object_record::{
    AttributeKey, ExtentMode, ExtentValue, FsverityMetadata, FxfsKey, ObjectItem, ObjectKeyData,
    ObjectKind, ObjectValue, DEFAULT_DATA_ATTRIBUTE_ID, INVALID_OBJECT_ID,
};
use crate::store_info::{layer_size_from_encrypted_mutations_size, StoreInfo};
use base64::engine::general_purpose::URL_SAFE_NO_PAD;
use base64::engine::Engine as _;
use vstd::prelude::*;

verus! {

/// What the size record of a file says.
pub struct DataAttribute {
    pub size: u64,
    /// Whether extents that are overwritten in place have to be tracked.
    pub track_overwrite_extents: bool,
    /// What a verified file is checked against.
    pub fsverity_metadata: Option<FsverityMetadata>,
}

/// The size that a size record gives.
pub open spec fn data_size(value: ObjectValue) -> Option<u64> {
    match value {
        ObjectValue::Attribute { size, .. } => Some(size),
        ObjectValue::VerifiedAttribute { size, .. } => Some(size),
        _ => None,
    }
}

/// Reads the size record of a file.
///
/// The overwrite extents are only tracked in memory for writes, reads handle them implicitly, which
/// means verified files (where the data won't change anymore) don't need to track them.
pub fn read_data_attribute(found: Option<ObjectItem>, max_file_size: u64) -> (attribute: Result<
    DataAttribute,
    FxfsError,
>)
    ensures
        match found {
            None => attribute == Result::<DataAttribute, FxfsError>::Err(FxfsError::NotFound),
            Some(item) => match data_size(item.value) {
                None => attribute == Result::<DataAttribute, FxfsError>::Err(
                    FxfsError::Inconsistent,
                ),
                Some(size) => if size > max_file_size {
                    attribute == Result::<DataAttribute, FxfsError>::Err(FxfsError::Inconsistent)
                } else {
                    attribute == Result::<DataAttribute, FxfsError>::Ok(
                        match item.value {
                            ObjectValue::VerifiedAttribute { size, fsverity_metadata } => {
                                DataAttribute {
                                    size,
                                    track_overwrite_extents: false,
                                    fsverity_metadata: Some(fsverity_metadata),
                                }
                            },
                            value => DataAttribute {
                                size,
                                track_overwrite_extents: value->has_overwrite_extents,
                                fsverity_metadata: None,
                            },
                        },
                    )
                },
            },
        },
{
    let item = match found {
        Some(item) => item,
        None => {
            return Err(FxfsError::NotFound);
        },
    };
    let attribute = match item.value {
        ObjectValue::Attribute { size, has_overwrite_extents } => DataAttribute {
            size,
            track_overwrite_extents: has_overwrite_extents,
            fsverity_metadata: None,
        },
        ObjectValue::VerifiedAttribute { size, fsverity_metadata } => DataAttribute {
            size,
            track_overwrite_extents: false,
            fsverity_metadata: Some(fsverity_metadata),
        },
        _ => {
            return Err(FxfsError::Inconsistent);
        },
    };
    if attribute.size > max_file_size {
        return Err(FxfsError::Inconsistent);
    }
    Ok(attribute)
}

/// What a record is to a scan for overwritten extents.
#[derive(Clone, Copy, Debug, PartialEq, Eq, Structural)]
pub enum ExtentRole {
    /// It is no extent of the data of the file: the scan is over.
    Foreign,
    /// It is an extent that is not overwritten in place.
    Plain,
    /// It is an extent that is overwritten in place.
    Overwritten { start: u64, end: u64 },
    /// It has the key of an extent but does not hold one.
    Malformed,
}

/// What `item` is to a scan for the overwritten extents of the file `obj_id`.
pub open spec fn extent_role(item: ObjectItem, obj_id: u64) -> ExtentRole {
    match item.key.data {
        ObjectKeyData::Attribute(attribute_id, AttributeKey::Extent(extent)) => {
            if item.key.object_id != obj_id || attribute_id != DEFAULT_DATA_ATTRIBUTE_ID {
                ExtentRole::Foreign
            } else {
                match item.value {
                    ObjectValue::Extent(ExtentValue::Deleted) => ExtentRole::Plain,
                    ObjectValue::Extent(ExtentValue::Mapped { mode, .. }) => match mode {
                        ExtentMode::Raw | ExtentMode::Cow => ExtentRole::Plain,
                        ExtentMode::OverwritePartial | ExtentMode::Overwrite => {
                            ExtentRole::Overwritten { start: extent.start, end: extent.end }
                        },
                    },
                    _ => ExtentRole::Malformed,
                }
            }
        },
        _ => ExtentRole::Foreign,
    }
}

/// Returns what `item` is to a scan for the overwritten extents of the file `obj_id`.
pub fn classify_extent(item: &ObjectItem, obj_id: u64) -> (role: ExtentRole)
    ensures
        role == extent_role(*item, obj_id),
{
    match &item.key.data {
        ObjectKeyData::Attribute(attribute_id, AttributeKey::Extent(extent)) => {
            if item.key.object_id != obj_id || *attribute_id != DEFAULT_DATA_ATTRIBUTE_ID {
                return ExtentRole::Foreign;
            }
            match &item.value {
                ObjectValue::Extent(ExtentValue::Deleted)
                | ObjectValue::Extent(ExtentValue::Mapped { mode: ExtentMode::Raw, .. })
                | ObjectValue::Extent(ExtentValue::Mapped { mode: ExtentMode::Cow, .. }) => {
                    ExtentRole::Plain
                },
                ObjectValue::Extent(ExtentValue::Mapped { mode: ExtentMode::OverwritePartial, .. })
                | ObjectValue::Extent(ExtentValue::Mapped { mode: ExtentMode::Overwrite, .. }) => {
                    ExtentRole::Overwritten { start: extent.start, end: extent.end }
                },
                _ => ExtentRole::Malformed,
            }
        },
        _ => ExtentRole::Foreign,
    }
}

/// How many of `items` are extents of the file, up to the first that is not.
pub open spec fn extents_scanned(items: Seq<ObjectItem>, obj_id: u64) -> nat
    decreases items.len(),
{
    if items.len() == 0 || extent_role(items[0], obj_id) == ExtentRole::Foreign {
        0
    } else {
        1 + extents_scanned(items.skip(1), obj_id)
    }
}

/// The ranges of those of `items` that are overwritten in place.
pub open spec fn overwritten(items: Seq<ObjectItem>, obj_id: u64) -> Seq<(u64, u64)>
    decreases items.len(),
{
    if items.len() == 0 {
        Seq::empty()
    } else {
        let before = overwritten(items.drop_last(), obj_id);
        match extent_role(items.last(), obj_id) {
            ExtentRole::Overwritten { start, end } => before.push((start, end)),
            _ => before,
        }
    }
}

proof fn lemma_extents_scanned(items: Seq<ObjectItem>, obj_id: u64, count: int)
    requires
        0 <= count <= items.len(),
        forall|i: int|
            0 <= i < count ==> extent_role(#[trigger] items[i], obj_id) != ExtentRole::Foreign,
    ensures
        extents_scanned(items, obj_id) == count + extents_scanned(items.skip(count), obj_id),
    decreases count,
{
    if count > 0 {
        let rest = items.skip(1);
        assert forall|i: int| 0 <= i < count - 1 implies extent_role(#[trigger] rest[i], obj_id)
            != ExtentRole::Foreign by {
            assert(rest[i] == items[i + 1]);
        }
        lemma_extents_scanned(rest, obj_id, count - 1);
        assert(rest.skip(count - 1) =~= items.skip(count));
        assert(extent_role(items[0], obj_id) != ExtentRole::Foreign);
    } else {
        assert(items.skip(0) =~= items);
    }
}

/// Collects the ranges of the file `obj_id` that are overwritten in place from `items`, the records
/// from its first extent on.
pub fn overwrite_ranges(items: &Vec<ObjectItem>, obj_id: u64) -> (ranges: Result<
    Vec<(u64, u64)>,
    FxfsError,
>)
    ensures
        ({
            let scanned = items@.take(extents_scanned(items@, obj_id) as int);
            let malformed = exists|i: int|
                0 <= i < scanned.len() && extent_role(#[trigger] scanned[i], obj_id)
                    == ExtentRole::Malformed;
            match ranges {
                Ok(ranges) => !malformed && ranges@ == overwritten(scanned, obj_id),
                Err(error) => malformed && error == FxfsError::Inconsistent,
            }
        }),
{
    let mut ranges: Vec<(u64, u64)> = Vec::new();
    let mut i: usize = 0;
    assert(items@.take(0) =~= Seq::empty());
    while i < items.len()
        invariant
            i <= items@.len(),
            forall|j: int|
                0 <= j < i ==> extent_role(#[trigger] items@[j], obj_id) != ExtentRole::Foreign
                    && extent_role(items@[j], obj_id) != ExtentRole::Malformed,
            ranges@ == overwritten(items@.take(i as int), obj_id),
        decreases items@.len() - i,
    {
        proof {
            lemma_extents_scanned(items@, obj_id, i as int);
            assert(items@.skip(i as int)[0] == items@[i as int]);
            assert(items@.take(i + 1).drop_last() =~= items@.take(i as int));
        }
        match classify_extent(&items[i], obj_id) {
            ExtentRole::Foreign => {
                assert forall|j: int| 0 <= j < i implies extent_role(
                    #[trigger] items@.take(i as int)[j],
                    obj_id,
                ) != ExtentRole::Malformed by {
                    assert(items@.take(i as int)[j] == items@[j]);
                }
                return Ok(ranges);
            },
            ExtentRole::Plain => {},
            ExtentRole::Overwritten { start, end } => {
                ranges.push((start, end));
            },
            ExtentRole::Malformed => {
                proof {
                    let scanned = items@.take(extents_scanned(items@, obj_id) as int);
                    assert(extents_scanned(items@.skip(i as int), obj_id) >= 1);
                    lemma_scanned_bound(items@, obj_id);
                    assert(scanned[i as int] == items@[i as int]);
                }
                return Err(FxfsError::Inconsistent);
            },
        }
        i += 1;
    }
    proof {
        lemma_extents_scanned(items@, obj_id, i as int);
        assert(items@.take(i as int) =~= items@);
    }
    Ok(ranges)
}

proof fn lemma_scanned_bound(items: Seq<ObjectItem>, obj_id: u64)
    ensures
        extents_scanned(items, obj_id) <= items.len(),
    decreases items.len(),
{
    if items.len() > 0 && extent_role(items[0], obj_id) != ExtentRole::Foreign {
        lemma_scanned_bound(items.skip(1), obj_id);
    }
}

/// An object that was opened.
pub struct OpenedObject {
    pub object_id: u64,
    /// Whether its keys stay in memory.  If a crypt service has been specified, it needs to be a
    /// permanent key because cached keys can only use the store's crypt service.
    pub permanent_keys: bool,
    pub size: u64,
    pub overwrite_ranges: Vec<(u64, u64)>,
    /// What a verified file is checked against, with its Merkle tree.
    pub fsverity: Option<(FsverityMetadata, Vec<u8>)>,
}

impl OpenedObject {
    /// Puts together an object from what was read about it.  `merkle_tree` is the attribute that holds
    /// the Merkle tree; a verified file must have one.
    pub fn open(
        object_id: u64,
        attribute: DataAttribute,
        overwrite_ranges: Vec<(u64, u64)>,
        has_crypt: bool,
        merkle_tree: Option<Vec<u8>>,
    ) -> (object: Result<OpenedObject, FxfsError>)
        ensures
            object == (match (attribute.fsverity_metadata, merkle_tree) {
                (Some(_), None) => Result::<OpenedObject, FxfsError>::Err(FxfsError::NotFound),
                (Some(metadata), Some(tree)) => Ok(
                    OpenedObject {
                        object_id,
                        permanent_keys: has_crypt,
                        size: attribute.size,
                        overwrite_ranges,
                        fsverity: Some((metadata, tree)),
                    },
                ),
                (None, _) => Ok(
                    OpenedObject {
                        object_id,
                        permanent_keys: has_crypt,
                        size: attribute.size,
                        overwrite_ranges,
                        fsverity: None,
                    },
                ),
            }),
    {
        let fsverity = match attribute.fsverity_metadata {
            Some(metadata) => match merkle_tree {
                Some(tree) => Some((metadata, tree)),
                None => {
                    return Err(FxfsError::NotFound);
                },
            },
            None => None,
        };
        Ok(
            OpenedObject {
                object_id,
                permanent_keys: has_crypt,
                size: attribute.size,
                overwrite_ranges,
                fsverity,
            },
        )
    }

    pub fn is_verified_file(&self) -> (verified: bool)
        ensures
            verified == (self.fsverity is Some),
    {
        self.fsverity.is_some()
    }
}

/// Opens an object, given the records about it: `found` is the record of its size, `extents` are the
/// records from its first extent on, which matter if overwrite extents are tracked, and `merkle_tree` is
/// the attribute that holds the Merkle tree, which matters if the file is verified.
pub fn open_object(
    obj_id: u64,
    found: Option<ObjectItem>,
    extents: &Vec<ObjectItem>,
    has_crypt: bool,
    merkle_tree: Option<Vec<u8>>,
    max_file_size: u64,
) -> (object: Result<OpenedObject, FxfsError>)
    ensures
        match found {
            None => object == Result::<OpenedObject, FxfsError>::Err(FxfsError::NotFound),
            Some(item) => match item.value {
                ObjectValue::Attribute { size, has_overwrite_extents } => {
                    let scanned = extents@.take(extents_scanned(extents@, obj_id) as int);
                    let malformed = exists|i: int|
                        0 <= i < scanned.len() && extent_role(#[trigger] scanned[i], obj_id)
                            == ExtentRole::Malformed;
                    if size > max_file_size || (has_overwrite_extents && malformed) {
                        object == Result::<OpenedObject, FxfsError>::Err(FxfsError::Inconsistent)
                    } else {
                        &&& object matches Ok(object)
                        &&& object.object_id == obj_id
                        &&& object.permanent_keys == has_crypt
                        &&& object.size == size
                        &&& object.fsverity is None
                        &&& object.overwrite_ranges@ == (if has_overwrite_extents {
                            overwritten(scanned, obj_id)
                        } else {
                            Seq::empty()
                        })
                    }
                },
                ObjectValue::VerifiedAttribute { size, fsverity_metadata } => {
                    if size > max_file_size {
                        object == Result::<OpenedObject, FxfsError>::Err(FxfsError::Inconsistent)
                    } else {
                        match merkle_tree {
                            None => object == Result::<OpenedObject, FxfsError>::Err(
                                FxfsError::NotFound,
                            ),
                            Some(tree) => {
                                &&& object matches Ok(object)
                                &&& object.object_id == obj_id
                                &&& object.permanent_keys == has_crypt
                                &&& object.size == size
                                &&& object.fsverity == Some((fsverity_metadata, tree))
                                &&& object.overwrite_ranges@ == Seq::<(u64, u64)>::empty()
                            },
                        }
                    }
                },
                _ => object == Result::<OpenedObject, FxfsError>::Err(FxfsError::Inconsistent),
            },
        },
{
    let attribute = match read_data_attribute(found, max_file_size) {
        Ok(attribute) => attribute,
        Err(error) => {
            return Err(error);
        },
    };
    let ranges = if attribute.track_overwrite_extents {
        match overwrite_ranges(extents, obj_id) {
            Ok(ranges) => ranges,
            Err(error) => {
                return Err(error);
            },
        }
    } else {
        Vec::new()
    };
    OpenedObject::open(obj_id, attribute, ranges, has_crypt, merkle_tree)
}

/// Returns the file size for the object without opening the object.
pub fn get_file_size(found: Option<&ObjectItem>) -> (size: Result<u64, FxfsError>)
    ensures
        size == (match found {
            None => Result::<u64, FxfsError>::Err(FxfsError::NotFound),
            Some(item) => match item.value {
                ObjectValue::Attribute { size, .. } => Ok(size),
                _ => Err(FxfsError::NotFile),
            },
        }),
{
    match found {
        None => Err(FxfsError::NotFound),
        Some(item) => match &item.value {
            ObjectValue::Attribute { size, .. } => Ok(*size),
            _ => Err(FxfsError::NotFile),
        },
    }
}

/// Retrieves the wrapped keys for an object.  The keys *should* be known to exist and it
/// will be considered an inconsistency if they don't.
pub fn get_keys(found: Option<ObjectItem>) -> (keys: Result<Vec<(u64, FxfsKey)>, FxfsError>)
    ensures
        keys == (match found {
            Some(item) => match item.value {
                ObjectValue::Keys(keys) => Result::<Vec<(u64, FxfsKey)>, FxfsError>::Ok(keys),
                _ => Err(FxfsError::Inconsistent),
            },
            None => Err(FxfsError::Inconsistent),
        }),
{
    match found {
        Some(item) => match item.value {
            ObjectValue::Keys(keys) => Ok(keys),
            _ => Err(FxfsError::Inconsistent),
        },
        None => Err(FxfsError::Inconsistent),
    }
}

/// What the record of a symbolic link holds.
pub enum SymlinkTarget {
    Plain(Vec<u8>),
    Encrypted(Vec<u8>),
}

/// Returns the link of a symlink object, which may have to be decrypted.
pub fn read_symlink(found: Option<ObjectItem>) -> (target: Result<SymlinkTarget, FxfsError>)
    ensures
        target == (match found {
            None => Result::<SymlinkTarget, FxfsError>::Err(FxfsError::NotFound),
            Some(item) => match item.value {
                ObjectValue::Object { kind: ObjectKind::EncryptedSymlink { link, .. }, .. } => Ok(
                    SymlinkTarget::Encrypted(link),
                ),
                ObjectValue::Object { kind: ObjectKind::Symlink { link, .. }, .. } => Ok(
                    SymlinkTarget::Plain(link),
                ),
                _ => Err(FxfsError::Inconsistent),
            },
        }),
{
    match found {
        None => Err(FxfsError::NotFound),
        Some(item) => match item.value {
            ObjectValue::Object { kind: ObjectKind::EncryptedSymlink { link, .. }, .. } => Ok(
                SymlinkTarget::Encrypted(link),
            ),
            ObjectValue::Object { kind: ObjectKind::Symlink { link, .. }, .. } => Ok(
                SymlinkTarget::Plain(link),
            ),
            _ => Err(FxfsError::Inconsistent),
        },
    }
}

/// The character of a number below 64 in the URL-safe alphabet of base64.
pub open spec fn base64_char(n: int) -> u8 {
    if n < 26 {
        (0x41 + n) as u8
    } else if n < 52 {
        (0x61 + n - 26) as u8
    } else if n < 62 {
        (0x30 + n - 52) as u8
    } else if n == 62 {
        0x2d
    } else {
        0x5f
    }
}

/// The byte at `index`, or zero behind the last one.
pub open spec fn byte_or_zero(bytes: Seq<u8>, index: int) -> int {
    if index < bytes.len() {
        bytes[index] as int
    } else {
        0
    }
}

/// The six bits of `bytes` that start at bit `6 * index`.
pub open spec fn sextet(bytes: Seq<u8>, index: int) -> int {
    let (byte, bit) = (6 * index / 8, 6 * index % 8);
    let window = byte_or_zero(bytes, byte) * 256 + byte_or_zero(bytes, byte + 1);
    let shift: int = if bit == 0 {
        1024
    } else if bit == 2 {
        256
    } else if bit == 4 {
        64
    } else {
        16
    };
    window / shift % 64
}

/// `base64::engine::general_purpose::URL_SAFE_NO_PAD`, whose `encode` writes six bits with each
/// character of the URL-safe alphabet and adds no padding.
#[verifier::external_body]
fn base64_encode(digest: &[u8; 32]) -> (encoded: Vec<u8>)
    ensures
        encoded@.len() == 43,
        forall|i: int|
            0 <= i < encoded@.len() ==> #[trigger] encoded@[i] == base64_char(sextet(digest@, i)),
{
    URL_SAFE_NO_PAD.encode(digest).into_bytes()
}

/// Returns what stands for the link of an encrypted symlink: the decrypted link if the symlink is
/// unlocked.  If it is locked, the hash of the encrypted link, which has a standard length, encoded so
/// that it can be used as a name.
pub fn read_encrypted_symlink(decrypted: Option<Vec<u8>>, digest: &[u8; 32]) -> (link: Vec<u8>)
    ensures
        match decrypted {
            Some(decrypted) => link == decrypted,
            None => {
                &&& link@.len() == 43
                &&& forall|i: int|
                    0 <= i < link@.len() ==> #[trigger] link@[i] == base64_char(sextet(digest@, i))
            },
        },
{
    match decrypted {
        Some(link) => link,
        None => base64_encode(digest),
    }
}

/// The sum of the first `count` of `sizes`.
pub open spec fn size_sum(sizes: Seq<u64>, count: nat) -> nat
    decreases count,
{
    if count == 0 {
        0
    } else {
        size_sum(sizes, (count - 1) as nat) + sizes[count - 1] as nat
    }
}

proof fn lemma_size_sum(sizes: Seq<u64>, a: nat, b: nat)
    requires
        a <= b,
    ensures
        size_sum(sizes, a) <= size_sum(sizes, b),
    decreases b,
{
    if a < b {
        lemma_size_sum(sizes, a, (b - 1) as nat);
    }
}

/// The size of the layers of a store, and of what will become layers of an encrypted store when its
/// mutations are flushed.
pub open spec fn spec_total_layer_size(
    info: StoreInfo,
    layer_sizes: Seq<u64>,
    encrypted_mutations_size: u64,
) -> int {
    size_sum(layer_sizes, layer_sizes.len()) + if info.mutations_key is Some
        && info.encrypted_mutations_object_id != INVALID_OBJECT_ID {
        encrypted_mutations_size * 3
    } else {
        0
    }
}

/// Returns how much space the layers of a store take, and what will become layers when its mutations
/// are flushed.
pub fn total_layer_size(
    info: &StoreInfo,
    layer_sizes: &Vec<u64>,
    encrypted_mutations_size: u64,
) -> (total: u64)
    requires
        spec_total_layer_size(*info, layer_sizes@, encrypted_mutations_size) <= u64::MAX,
    ensures
        total == spec_total_layer_size(*info, layer_sizes@, encrypted_mutations_size),
{
    let mut total: u64 = 0;
    let mut i: usize = 0;
    while i < layer_sizes.len()
        invariant
            i <= layer_sizes@.len(),
            total == size_sum(layer_sizes@, i as nat),
            size_sum(layer_sizes@, layer_sizes@.len()) <= u64::MAX,
        decreases layer_sizes@.len() - i,
    {
        proof {
            lemma_size_sum(layer_sizes@, (i + 1) as nat, layer_sizes@.len());
        }
        total = total + layer_sizes[i];
        i += 1;
    }
    if info.mutations_key.is_some() && info.encrypted_mutations_object_id != INVALID_OBJECT_ID {
        total = total + layer_size_from_encrypted_mutations_size(encrypted_mutations_size);
    }
    total
}

/// A size record, of a verified file or not, gives its size; no other record gives one.
pub proof fn lemma_size_records_give_their_size(value: ObjectValue)
    ensures
        value matches ObjectValue::Attribute { size, .. } ==> data_size(value) == Some(size),
        value matches ObjectValue::VerifiedAttribute { size, .. } ==> data_size(value) == Some(size),
        data_size(value) is Some ==> value is Attribute || value is VerifiedAttribute,
{
}

/// Only extents of the data of the file take part in a scan; of those, the ones that are overwritten in place count,
/// with the place that they have in the file.  What has the key of an extent and holds something else is malformed.
pub proof fn lemma_overwritten_extents_count(item: ObjectItem, obj_id: u64)
    ensures
        ({
            let role = extent_role(item, obj_id);
            let is_data_extent = item.key.object_id == obj_id && (
            item.key.data matches ObjectKeyData::Attribute(id, key) && id == 0 && key is Extent);
            &&& role is Foreign <==> !is_data_extent
            &&& role is Malformed <==> is_data_extent && !(item.value is Extent)
            &&& role is Overwritten <==> is_data_extent && (item.value matches ObjectValue::Extent(value)
                && (value matches ExtentValue::Mapped { mode, .. } && (mode == ExtentMode::Overwrite || mode
                == ExtentMode::OverwritePartial)))
            &&& role matches ExtentRole::Overwritten { start, end } ==> item.key.data
                == ObjectKeyData::Attribute(
                0,
                AttributeKey::Extent(crate::object_record::ExtentKey { start, end }),
            )
        }),
{
}

/// A scan takes in all records up to the first that is none of its extents, and stops there.
pub proof fn lemma_scan_stops_at_the_first_foreign_record(items: Seq<ObjectItem>, obj_id: u64)
    ensures
        ({
            let count = extents_scanned(items, obj_id);
            &&& count <= items.len()
            &&& forall|i: int| 0 <= i < count ==> !(extent_role(#[trigger] items[i], obj_id) is Foreign)
            &&& count < items.len() ==> extent_role(items[count as int], obj_id) is Foreign
        }),
    decreases items.len(),
{
    if items.len() > 0 && !(extent_role(items[0], obj_id) is Foreign) {
        let rest = items.skip(1);
        lemma_scan_stops_at_the_first_foreign_record(rest, obj_id);
        let count = extents_scanned(items, obj_id);
        assert forall|i: int| 0 <= i < count implies !(extent_role(#[trigger] items[i], obj_id) is Foreign) by {
            if i > 0 {
                assert(rest[i - 1] == items[i]);
            }
        }
        if count < items.len() {
            assert(rest[count - 1] == items[count as int]);
        }
    }
}

/// The ranges that are collected from records one after the other are those of the first and then those of the
/// others, and from one record at most one, which is its own, is collected.
pub proof fn lemma_ranges_are_collected_in_order(
    first: Seq<ObjectItem>,
    others: Seq<ObjectItem>,
    item: ObjectItem,
    obj_id: u64,
)
    ensures
        overwritten(first + others, obj_id) == overwritten(first, obj_id) + overwritten(others, obj_id),
        overwritten(seq![item], obj_id).len() <= 1,
        overwritten(seq![item], obj_id).len() == 1 <==> extent_role(item, obj_id) is Overwritten,
        extent_role(item, obj_id) matches ExtentRole::Overwritten { start, end } ==> overwritten(
            seq![item],
            obj_id,
        )[0] == (start, end),
    decreases others.len(),
{
    reveal_with_fuel(overwritten, 2);
    assert(seq![item].drop_last() =~= Seq::empty());
    if others.len() == 0 {
        assert(first + others =~= first);
        assert(overwritten(first, obj_id) + overwritten(others, obj_id) =~= overwritten(first, obj_id));
    } else {
        lemma_ranges_are_collected_in_order(first, others.drop_last(), item, obj_id);
        assert((first + others).drop_last() =~= first + others.drop_last());
        assert(overwritten(first + others, obj_id) =~= overwritten(first, obj_id) + overwritten(
            others,
            obj_id,
        ));
    }
}

/// Each layer adds its size to the size of all layers.
pub proof fn lemma_each_layer_adds_its_size(
    info: StoreInfo,
    sizes: Seq<u64>,
    size: u64,
    encrypted_mutations_size: u64,
)
    ensures
        size_sum(Seq::empty(), 0) == 0,
        size_sum(sizes.push(size), sizes.len() + 1) == size_sum(sizes, sizes.len()) + size,
        spec_total_layer_size(info, sizes.push(size), encrypted_mutations_size) == spec_total_layer_size(
            info,
            sizes,
            encrypted_mutations_size,
        ) + size,
{
    lemma_same_sizes_same_sum(sizes.push(size), sizes, sizes.len());
}

proof fn lemma_same_sizes_same_sum(a: Seq<u64>, b: Seq<u64>, count: nat)
    requires
        count <= a.len(),
        count <= b.len(),
        forall|i: int| 0 <= i < count ==> a[i] == b[i],
    ensures
        size_sum(a, count) == size_sum(b, count),
    decreases count,
{
    if count > 0 {
        lemma_same_sizes_same_sum(a, b, (count - 1) as nat);
    }
}

/// Encrypted mutations that wait for a flush count three times on top of the layers; a store that is not encrypted,
/// or that has none, has nothing but its layers.
pub proof fn lemma_waiting_mutations_count_three_times(
    info: StoreInfo,
    sizes: Seq<u64>,
    encrypted_mutations_size: u64,
)
    ensures
        ({
            let layers = size_sum(sizes, sizes.len());
            let total = spec_total_layer_size(info, sizes, encrypted_mutations_size);
            &&& info.mutations_key is None || info.encrypted_mutations_object_id == 0 ==> total == layers
            &&& info.mutations_key is Some && info.encrypted_mutations_object_id != 0 ==> total - layers
                == encrypted_mutations_size + encrypted_mutations_size + encrypted_mutations_size
        }),
{
}

/// Different numbers have different characters, all of which can stand in a name: letters, digits, dashes and
/// underscores.
pub proof fn lemma_names_have_an_alphabet(a: int, b: int)
    requires
        0 <= a < 64,
        0 <= b < 64,
    ensures
        base64_char(a) == base64_char(b) <==> a == b,
        0x61 <= base64_char(a) <= 0x7a || 0x41 <= base64_char(a) <= 0x5a || 0x30 <= base64_char(a) <= 0x39
            || base64_char(a) == 0x2d || base64_char(a) == 0x5f,
        a < 26 <==> 0x41 <= base64_char(a) <= 0x5a,
        52 <= a < 62 <==> 0x30 <= base64_char(a) <= 0x39,
        a < b && (b < 26 || (26 <= a && b < 52) || (52 <= a && b < 62)) ==> base64_char(b) - base64_char(a) == b
            - a,
        a == 62 <==> base64_char(a) == 0x2d,
        a == 63 <==> base64_char(a) == 0x5f,
{
}

/// Nothing of a digest is lost: four numbers of six bits make up three bytes again.
pub proof fn lemma_sextets_make_up_the_bytes(bytes: Seq<u8>, group: int)
    requires
        group >= 0,
        3 * group < bytes.len(),
    ensures
        0 <= sextet(bytes, 4 * group) < 64,
        0 <= sextet(bytes, 4 * group + 1) < 64,
        0 <= sextet(bytes, 4 * group + 2) < 64,
        0 <= sextet(bytes, 4 * group + 3) < 64,
        sextet(bytes, 4 * group) * 262144 + sextet(bytes, 4 * group + 1) * 4096 + sextet(
            bytes,
            4 * group + 2,
        ) * 64 + sextet(bytes, 4 * group + 3) == bytes[3 * group] * 65536 + (if 3 * group + 1 < bytes.len() {
            bytes[3 * group + 1] as int
        } else {
            0
        }) * 256 + (if 3 * group + 2 < bytes.len() {
            bytes[3 * group + 2] as int
        } else {
            0
        }),
{
    let a = byte_or_zero(bytes, 3 * group);
    let b = byte_or_zero(bytes, 3 * group + 1);
    let c = byte_or_zero(bytes, 3 * group + 2);
    let d = byte_or_zero(bytes, 3 * group + 3);
    assert(6 * (4 * group) / 8 == 3 * group && 6 * (4 * group) % 8 == 0);
    assert(6 * (4 * group + 1) / 8 == 3 * group && 6 * (4 * group + 1) % 8 == 6);
    assert(6 * (4 * group + 2) / 8 == 3 * group + 1 && 6 * (4 * group + 2) % 8 == 4);
    assert(6 * (4 * group + 3) / 8 == 3 * group + 2 && 6 * (4 * group + 3) % 8 == 2);
    assert(0 <= a < 256 && 0 <= b < 256 && 0 <= c < 256 && 0 <= d < 256);
    lemma_six_bits(a, b, c, d);
}

proof fn lemma_six_bits(a: int, b: int, c: int, d: int)
    requires
        0 <= a < 256,
        0 <= b < 256,
        0 <= c < 256,
        0 <= d < 256,
    ensures
        (a * 256 + b) / 1024 % 64 == a / 4,
        (a * 256 + b) / 16 % 64 == a % 4 * 16 + b / 16,
        (b * 256 + c) / 64 % 64 == b % 16 * 4 + c / 64,
        (c * 256 + d) / 256 % 64 == c % 64,
{
    let (q, r) = (a / 4, a % 4);
    assert(a * 256 + b == 1024 * q + (256 * r + b));
    assert((a * 256 + b) / 1024 == q);
    assert(a * 256 + b == 16 * (64 * q + (16 * r + b / 16)) + b % 16);
    assert((a * 256 + b) / 16 == 64 * q + (16 * r + b / 16));
    let (q, r) = (b / 16, b % 16);
    assert(b * 256 + c == 64 * (64 * q + (4 * r + c / 64)) + c % 64);
    assert((b * 256 + c) / 64 == 64 * q + (4 * r + c / 64));
    assert((c * 256 + d) / 256 == c);
}

} // verus!
