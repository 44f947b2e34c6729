//! Trimming the extents of objects, and deleting objects.
use crate::errors::FxfsError;
use crate::lock_keys::{LockKey, LockKeys};
use crate::object_record::{
    AttributeKey, ExtentKey, ExtentMode, ExtentValue, ObjectAttributes, ObjectItem, ObjectKey,
    ObjectKeyData, ObjectValue, ProjectProperty, INVALID_OBJECT_ID,
};
use crate::object_store::ObjectStore;
use crate::round::{lemma_round_up, round_up, spec_round_up};
use crate::transaction::{
    in_order, lemma_added_is_held, DeviceRange, DeviceRangeV32, Mutation, MutationV47,
    ObjectStoreMutation, OperationV32, Transaction, TxnView,
};
use vstd::prelude::*;

verus! {

/// At time of writing, this threshold limits transactions that delete extents to about 10,000 bytes.
pub const TRANSACTION_MUTATION_THRESHOLD: usize = 200;

/// Sets the mode for tombstoning (either at the object or attribute level).
#[derive(Clone, Copy, Debug, PartialEq, Eq, Structural)]
pub enum TombstoneMode {
    Object,
    Attribute,
}

/// Says which extents to trim.
#[derive(Clone, Copy, Debug, PartialEq, Eq, Structural)]
pub enum TrimMode {
    /// Trim extents beyond the current size.
    UseSize,
    /// Trim extents beyond the supplied offset.
    FromOffset(u64),
    /// Remove the object (or attribute) from the store once it is fully trimmed.
    Tombstone(TombstoneMode),
}

/// What trimming came to.
#[derive(Clone, Copy, Debug, PartialEq, Eq, Structural)]
pub enum TrimResult {
    /// We reached the limit of the transaction and more extents might follow.
    Incomplete,
    /// We finished this attribute.  Returns the ID of the next attribute for the same object if
    /// there is one.
    Done(Option<u64>),
}

/// How trimming starts.
pub enum TrimStart {
    /// There is nothing to trim.
    Finished(TrimResult),
    /// The extents have to be looked at, from `TrimScan::aligned_offset` on.
    Scan(TrimScan),
}

/// What to do next while extents are looked at.
#[derive(Clone, Copy, Debug, PartialEq, Eq, Structural)]
pub enum TrimStep {
    /// There are no more extents to look at.
    Finish,
    /// Go on with the next record.
    Advance,
    /// Deallocate this range of the device in the same transaction, and then call
    /// `TrimScan::deallocated`.
    Deallocate(DeviceRange),
}

/// Extents of an attribute that are being trimmed.
pub struct TrimScan {
    pub object_id: u64,
    pub attribute_id: u64,
    pub mode: TrimMode,
    pub block_size: u64,
    /// Where trimming starts.
    pub aligned_offset: u64,
    /// Where the last extent that was looked at ends.
    pub end: u64,
    /// How many bytes were deallocated.
    pub deallocated: u64,
    pub result: TrimResult,
}

/// The size that `item` records for an attribute, with the attribute.
pub open spec fn size_record(item: ObjectItem) -> Option<(u64, u64)> {
    match (item.key.data, item.value) {
        (
            ObjectKeyData::Attribute(id, AttributeKey::Attribute),
            ObjectValue::Attribute { size, .. },
        ) => Some((id, size)),
        _ => None,
    }
}

/// The extent that `item` records and its place on the device.
pub open spec fn mapped_extent(item: ObjectItem) -> Option<(ExtentKey, u64)> {
    match (item.key.data, item.value) {
        (
            ObjectKeyData::Attribute(_, AttributeKey::Extent(extent)),
            ObjectValue::Extent(ExtentValue::Mapped { device_offset, .. }),
        ) => Some((extent, device_offset)),
        _ => None,
    }
}

/// Where the extent that `item` records ends.
pub open spec fn mapped_end(item: ObjectItem) -> u64 {
    match mapped_extent(item) {
        Some((extent, _)) => extent.end,
        None => 0,
    }
}

/// Where trimming starts, or how it ends at once.
pub open spec fn trim_start(
    object_id: u64,
    attribute_id: u64,
    mode: TrimMode,
    block_size: u64,
    first: Option<ObjectItem>,
) -> Result<Result<u64, TrimResult>, FxfsError> {
    match mode {
        TrimMode::FromOffset(offset) => aligned(offset, block_size),
        TrimMode::Tombstone(_) => Ok(Ok(0)),
        TrimMode::UseSize => match first {
            None => Ok(Err(TrimResult::Done(None))),
            Some(item) => if item.key.object_id != object_id {
                Ok(Err(TrimResult::Done(None)))
            } else {
                match size_record(item) {
                    Some((id, size)) => if id != attribute_id {
                        Ok(Err(TrimResult::Done(Some(id))))
                    } else {
                        aligned(size, block_size)
                    },
                    None => Ok(Err(TrimResult::Done(Some((attribute_id + 1) as u64)))),
                }
            },
        },
    }
}

/// `offset` rounded up to a multiple of the block size.
pub open spec fn aligned(offset: u64, block_size: u64) -> Result<Result<u64, TrimResult>, FxfsError> {
    if offset + block_size - 1 > u64::MAX {
        Err(FxfsError::Inconsistent)
    } else {
        Ok(Ok(spec_round_up(offset as int, block_size as int) as u64))
    }
}

/// The length of all of the ranges together.
pub open spec fn total_len(ranges: Seq<(int, int)>) -> int
    decreases ranges.len(),
{
    if ranges.len() == 0 {
        0
    } else {
        total_len(ranges.drop_last()) + ranges.last().1 - ranges.last().0
    }
}

impl TrimScan {
    /// Starts to delete extents of the attribute `attribute_id` of the object `object_id`.  For
    /// `TrimMode::UseSize`, `first` is the first record from the size of that attribute on.
    ///
    /// If the size of a different attribute is found, trimming ends there, so that the caller can get
    /// the right lock.
    pub fn start(
        object_id: u64,
        attribute_id: u64,
        mode: TrimMode,
        block_size: u64,
        first: Option<&ObjectItem>,
    ) -> (start: Result<TrimStart, FxfsError>)
        requires
            block_size > 0,
            mode == TrimMode::UseSize ==> (first matches Some(item) ==> item.key.object_id == object_id
                && size_record(*item) is None ==> attribute_id < u64::MAX),
        ensures
            ({
                let first = match first {
                    Some(item) => Some(*item),
                    None => None,
                };
                match trim_start(object_id, attribute_id, mode, block_size, first) {
                    Err(error) => start == Result::<TrimStart, FxfsError>::Err(error),
                    Ok(Err(result)) => start == Result::<TrimStart, FxfsError>::Ok(
                        TrimStart::Finished(result),
                    ),
                    Ok(Ok(offset)) => start == Result::<TrimStart, FxfsError>::Ok(
                        TrimStart::Scan(
                            TrimScan {
                                object_id,
                                attribute_id,
                                mode,
                                block_size,
                                aligned_offset: offset,
                                end: 0,
                                deallocated: 0,
                                result: TrimResult::Done(None),
                            },
                        ),
                    ),
                }
            }),
    {
        let aligned_offset: u64 = match mode {
            TrimMode::FromOffset(offset) => match round_up(offset, block_size) {
                Some(offset) => offset,
                None => {
                    return Err(FxfsError::Inconsistent);
                },
            },
            TrimMode::Tombstone(_) => 0,
            TrimMode::UseSize => match first {
                Some(item) => {
                    if item.key.object_id != object_id {
                        return Ok(TrimStart::Finished(TrimResult::Done(None)));
                    }
                    match (&item.key.data, &item.value) {
                        (
                            ObjectKeyData::Attribute(size_attribute_id, AttributeKey::Attribute),
                            ObjectValue::Attribute { size, .. },
                        ) => {
                            if *size_attribute_id != attribute_id {
                                return Ok(
                                    TrimStart::Finished(TrimResult::Done(Some(*size_attribute_id))),
                                );
                            }
                            match round_up(*size, block_size) {
                                Some(offset) => offset,
                                None => {
                                    return Err(FxfsError::Inconsistent);
                                },
                            }
                        },
                        // At time of writing, we should always see a size record or None here, but
                        // asserting here would be brittle so just skip to the the next attribute
                        // instead.
                        _ => {
                            return Ok(TrimStart::Finished(TrimResult::Done(Some(attribute_id + 1))));
                        },
                    }
                },
                // End of the tree.
                None => {
                    return Ok(TrimStart::Finished(TrimResult::Done(None)));
                },
            },
        };
        Ok(
            TrimStart::Scan(
                TrimScan {
                    object_id,
                    attribute_id,
                    mode,
                    block_size,
                    aligned_offset,
                    end: 0,
                    deallocated: 0,
                    result: TrimResult::Done(None),
                },
            ),
        )
    }

    /// The part of `extent` that is to be trimmed.
    pub open spec fn trimmed(self, extent: ExtentKey) -> (int, int) {
        (
            if extent.start > self.aligned_offset {
                extent.start as int
            } else {
                self.aligned_offset as int
            },
            extent.end as int,
        )
    }

    /// The place of that part on the device.
    pub open spec fn trimmed_device_range(self, extent: ExtentKey, device_offset: u64) -> (int, int) {
        let (start, end) = self.trimmed(extent);
        (device_offset + start - extent.start, device_offset + end - extent.start)
    }

    /// The record `item` is for the attribute that is trimmed.
    pub open spec fn is_for(self, item: ObjectItem) -> bool {
        item.key.object_id == self.object_id && (item.key.data matches ObjectKeyData::Attribute(id, _)
            ==> id == self.attribute_id)
    }

    /// What is to be trimmed of `item` does not begin on the device and end beyond any device.
    pub open spec fn ends_on_device(self, item: ObjectItem) -> bool {
        self.is_for(item) ==> (mapped_extent(item) matches Some((extent, device_offset)) ==> {
            let (start, end) = self.trimmed(extent);
            start < end && device_offset + start - extent.start <= u64::MAX ==> device_offset + end
                - extent.start <= u64::MAX
        })
    }

    /// Returns whether what is to be trimmed of `item` ends on the device if it begins there.
    pub fn fits_device(&self, item: &ObjectItem) -> (fits: bool)
        ensures
            fits == self.ends_on_device(*item),
    {
        if item.key.object_id != self.object_id {
            return true;
        }
        if let ObjectKeyData::Attribute(extent_attribute_id, attribute_key) = &item.key.data {
            if *extent_attribute_id != self.attribute_id {
                return true;
            }
            if let (
                AttributeKey::Extent(range),
                ObjectValue::Extent(ExtentValue::Mapped { device_offset, .. }),
            ) = (attribute_key, &item.value) {
                let start: u64 = if range.start > self.aligned_offset {
                    range.start
                } else {
                    self.aligned_offset
                };
                if start >= range.end {
                    return true;
                }
                return match device_offset.checked_add(start - range.start) {
                    Some(device_start) => range.end - start <= u64::MAX - device_start,
                    None => true,
                };
            }
        }
        true
    }

    /// The device range that trimming `item` deallocates, if it is as it should be: not empty, and
    /// aligned to the block size.
    pub open spec fn trim_item(self, item: ObjectItem) -> Result<Option<(int, int)>, FxfsError> {
        match mapped_extent(item) {
            None => Ok(None),
            Some((extent, device_offset)) => {
                let (start, end) = self.trimmed(extent);
                let range = self.trimmed_device_range(extent, device_offset);
                if start >= end || range.0 > u64::MAX || range.0 % (self.block_size as int) != 0
                    || range.1 % (self.block_size as int) != 0 {
                    Err(FxfsError::Inconsistent)
                } else {
                    Ok(Some(range))
                }
            },
        }
    }

    /// The device ranges that trimming the records `items`, one by one, deallocates.
    pub open spec fn deallocations(self, items: Seq<ObjectItem>) -> Seq<(int, int)>
        decreases items.len(),
    {
        if items.len() == 0 {
            seq![]
        } else {
            let before = self.deallocations(items.drop_last());
            match self.trim_item(items.last()) {
                Ok(Some(range)) => before.push(range),
                _ => before,
            }
        }
    }

    /// The scan once the next record was looked at, and what to do with that record.
    pub open spec fn stepped(self, item: Option<ObjectItem>) -> (
        TrimScan,
        Result<TrimStep, FxfsError>,
    ) {
        match item {
            None => (self, Ok(TrimStep::Finish)),
            Some(item) => if item.key.object_id != self.object_id {
                (self, Ok(TrimStep::Finish))
            } else if !self.is_for(item) {
                (
                    TrimScan { result: TrimResult::Done(Some(item.key.data->Attribute_0)), ..self },
                    Ok(TrimStep::Finish),
                )
            } else {
                match self.trim_item(item) {
                    Err(error) => (self, Err(error)),
                    Ok(None) => (self, Ok(TrimStep::Advance)),
                    Ok(Some((start, end))) => (
                        TrimScan { end: mapped_end(item), ..self },
                        Ok(
                            TrimStep::Deallocate(
                                DeviceRangeV32 { start: start as u64, end: end as u64 },
                            ),
                        ),
                    ),
                }
            },
        }
    }

    /// Looks at the next record and says what to do with it.
    pub fn next(&mut self, item: Option<&ObjectItem>) -> (step: Result<TrimStep, FxfsError>)
        requires
            old(self).block_size > 0,
            item matches Some(item) ==> old(self).ends_on_device(*item),
        ensures
            (*final(self), step) == old(self).stepped(
                match item {
                    Some(item) => Some(*item),
                    None => None,
                },
            ),
            match item {
                None => step == Result::<TrimStep, FxfsError>::Ok(TrimStep::Finish) && *final(self)
                    == *old(self),
                Some(item) => if item.key.object_id != old(self).object_id {
                    step == Result::<TrimStep, FxfsError>::Ok(TrimStep::Finish) && *final(self)
                        == *old(self)
                } else if !old(self).is_for(*item) {
                    &&& step == Result::<TrimStep, FxfsError>::Ok(TrimStep::Finish)
                    &&& *final(self) == (TrimScan {
                        result: TrimResult::Done(Some(item.key.data->Attribute_0)),
                        ..*old(self)
                    })
                } else {
                    match old(self).trim_item(*item) {
                        Err(error) => step == Result::<TrimStep, FxfsError>::Err(error)
                            && *final(self) == *old(self),
                        Ok(None) => step == Result::<TrimStep, FxfsError>::Ok(TrimStep::Advance)
                            && *final(self) == *old(self),
                        Ok(Some((start, end))) => {
                            &&& step == Result::<TrimStep, FxfsError>::Ok(
                                TrimStep::Deallocate(
                                    DeviceRangeV32 { start: start as u64, end: end as u64 },
                                ),
                            )
                            &&& *final(self) == (TrimScan {
                                end: mapped_end(*item),
                                ..*old(self)
                            })
                            &&& start < end <= u64::MAX
                        },
                    }
                },
            },
    {
        let item = match item {
            Some(item) => item,
            None => {
                return Ok(TrimStep::Finish);
            },
        };
        if item.key.object_id != self.object_id {
            return Ok(TrimStep::Finish);
        }
        if let ObjectKeyData::Attribute(extent_attribute_id, attribute_key) = &item.key.data {
            if *extent_attribute_id != self.attribute_id {
                self.result = TrimResult::Done(Some(*extent_attribute_id));
                return Ok(TrimStep::Finish);
            }
            if let (
                AttributeKey::Extent(range),
                ObjectValue::Extent(ExtentValue::Mapped { device_offset, .. }),
            ) = (attribute_key, &item.value) {
                let start: u64 = if range.start > self.aligned_offset {
                    range.start
                } else {
                    self.aligned_offset
                };
                if start >= range.end {
                    return Err(FxfsError::Inconsistent);
                }
                let device_start: u64 = match device_offset.checked_add(start - range.start) {
                    Some(offset) => offset,
                    None => {
                        return Err(FxfsError::Inconsistent);
                    },
                };
                let device_end: u64 = device_start + (range.end - start);
                if device_start % self.block_size != 0 || device_end % self.block_size != 0 {
                    return Err(FxfsError::Inconsistent);
                }
                self.end = range.end;
                return Ok(
                    TrimStep::Deallocate(DeviceRangeV32 { start: device_start, end: device_end }),
                );
            }
        }
        Ok(TrimStep::Advance)
    }

    /// The scan once `device_range` was deallocated, and whether to go on.
    pub open spec fn counting(self, device_range: DeviceRange, mutations: usize) -> (TrimScan, bool) {
        let more = mutations < TRANSACTION_MUTATION_THRESHOLD;
        (
            TrimScan {
                deallocated: (self.deallocated + device_range.end - device_range.start) as u64,
                result: if more {
                    self.result
                } else {
                    TrimResult::Incomplete
                },
                ..self
            },
            more,
        )
    }

    /// Notes that `device_range` was deallocated.  Returns whether to go on: not if the transaction,
    /// which has `mutations` mutations, is getting too big.
    pub fn deallocated(&mut self, device_range: DeviceRange, mutations: usize) -> (more: bool)
        requires
            device_range.start <= device_range.end,
            old(self).deallocated + device_range.end - device_range.start <= u64::MAX,
        ensures
            (*final(self), more) == old(self).counting(device_range, mutations),
            more == (mutations < TRANSACTION_MUTATION_THRESHOLD),
            *final(self) == (TrimScan {
                deallocated: (old(self).deallocated + device_range.end - device_range.start) as u64,
                result: if more {
                    old(self).result
                } else {
                    TrimResult::Incomplete
                },
                ..*old(self)
            }),
    {
        self.deallocated = self.deallocated + (device_range.end - device_range.start);
        if mutations >= TRANSACTION_MUTATION_THRESHOLD {
            self.result = TrimResult::Incomplete;
            false
        } else {
            true
        }
    }

    /// All of the object's extents are trimmed, and it is to be deleted.
    pub open spec fn finished_object(self) -> bool {
        self.mode == TrimMode::Tombstone(TombstoneMode::Object) && self.result == TrimResult::Done(
            None,
        )
    }

    /// All of the attribute's extents are trimmed, and it is to be deleted.
    pub open spec fn finished_attribute(self) -> bool {
        self.mode == TrimMode::Tombstone(TombstoneMode::Attribute) && self.result
            != TrimResult::Incomplete
    }

    /// The record of the object is needed in order to finish.
    pub open spec fn spec_needs_object(self) -> bool {
        self.finished_object() || self.deallocated != 0
    }

    /// Returns whether the object has nothing left and is deleted.
    pub fn is_finished_object(&self) -> (finished: bool)
        ensures
            finished == self.finished_object(),
    {
        matches!(self.mode, TrimMode::Tombstone(TombstoneMode::Object)) && matches!(
            self.result,
            TrimResult::Done(None)
        )
    }

    /// Returns whether `finish` needs the record of the object.
    pub fn needs_object(&self) -> (needs: bool)
        ensures
            needs == self.spec_needs_object(),
    {
        self.is_finished_object() || self.deallocated != 0
    }

    /// The change in what the project of the object uses.
    pub open spec fn usage_change(self, root_directory_object_id: u64, project_id: u64) -> Mutation {
        MutationV47::object_mutation(
            ObjectKey {
                object_id: root_directory_object_id,
                data: ObjectKeyData::Project {
                    project_id,
                    property: ProjectProperty::Usage,
                },
            },
            ObjectValue::BytesAndNodes {
                bytes: (-(self.deallocated as int)) as i64,
                nodes: if self.finished_object() {
                    -1i64
                } else {
                    0i64
                },
            },
            OperationV32::Merge,
        )
    }

    /// The transaction once the change of usage and the deletions have been added to it.
    pub open spec fn with_deletions(
        self,
        txn: TxnView,
        store_object_id: u64,
        root_directory_object_id: u64,
        project_id: u64,
    ) -> TxnView {
        let txn = if self.spec_needs_object() && project_id != 0 {
            txn.plus(store_object_id, self.usage_change(root_directory_object_id, project_id))
        } else {
            txn
        };
        if self.finished_object() {
            txn.plus(
                store_object_id,
                MutationV47::object_mutation(
                    ObjectKey::spec_object(self.object_id),
                    ObjectValue::Deleted,
                    OperationV32::Merge,
                ),
            )
        } else {
            let txn = if self.finished_attribute() {
                txn.plus(
                    store_object_id,
                    MutationV47::object_mutation(
                        ObjectKey {
                            object_id: self.object_id,
                            data: ObjectKeyData::Attribute(
                                self.attribute_id,
                                AttributeKey::Attribute,
                            ),
                        },
                        ObjectValue::Deleted,
                        OperationV32::Merge,
                    ),
                )
            } else {
                txn
            };
            if self.deallocated > 0 {
                txn.plus(
                    store_object_id,
                    MutationV47::object_mutation(
                        ObjectKey {
                            object_id: self.object_id,
                            data: ObjectKeyData::Attribute(
                                self.attribute_id,
                                AttributeKey::Extent(
                                    ExtentKey { start: self.aligned_offset, end: self.end },
                                ),
                            ),
                        },
                        ObjectValue::Extent(ExtentValue::Deleted),
                        OperationV32::Merge,
                    ),
                )
            } else {
                txn
            }
        }
    }

    /// The transaction, and what trimming came to, once everything that follows from the extents that were
    /// deallocated has been added.
    pub open spec fn finished(
        self,
        txn: TxnView,
        store_object_id: u64,
        root_directory_object_id: u64,
        object: Option<ObjectStoreMutation>,
    ) -> (TxnView, Result<TrimResult, FxfsError>) {
        let attributes = object->0.item.value->Object_attributes;
        let project_id = if self.spec_needs_object() {
            attributes.project_id
        } else {
            0
        };
        let deleted = self.with_deletions(
            txn,
            store_object_id,
            root_directory_object_id,
            project_id,
        );
        if self.deallocated == 0 || self.finished_object() {
            (deleted, Ok(self.result))
        } else if attributes.allocated_size < self.deallocated {
            (deleted, Err(FxfsError::Inconsistent))
        } else {
            (
                deleted.plus(
                    store_object_id,
                    MutationV47::ObjectStore(
                        with_allocated_size(
                            object->0,
                            (attributes.allocated_size - self.deallocated) as u64,
                        ),
                    ),
                ),
                Ok(self.result),
            )
        }
    }

    /// Adds to the transaction what follows from the extents that were deallocated: the usage of the
    /// project, the deletion of the extents, of the attribute or of the object, and the allocated
    /// size.  `object` is the record of the object.
    pub fn finish(
        self,
        transaction: &mut Transaction,
        store_object_id: u64,
        root_directory_object_id: u64,
        object: Option<ObjectStoreMutation>,
    ) -> (result: Result<TrimResult, FxfsError>)
        requires
            old(transaction).wf(),
            store_object_id != INVALID_OBJECT_ID,
            self.spec_needs_object() ==> object is Some,
            // The usage of a project is counted in signed numbers.
            self.spec_needs_object() && object->0.item.value->Object_attributes.project_id != 0
                ==> self.deallocated <= i64::MAX,
            object matches Some(object) ==> object.item.value is Object
                && object.item.key.data is Object,
            self.finished_object() ==> old(transaction)@.missing_lock(
                store_object_id,
                MutationV47::object_mutation(
                    ObjectKey::spec_object(self.object_id),
                    ObjectValue::Deleted,
                    OperationV32::Merge,
                ),
            ) is None,
            !self.finished_object() && self.deallocated > 0
                && object->0.item.value->Object_attributes.allocated_size >= self.deallocated
                ==> old(transaction)@.missing_lock(
                store_object_id,
                MutationV47::ObjectStore(object->0),
            ) is None,
        ensures
            final(transaction).wf(),
            (final(transaction)@, result) == self.finished(
                old(transaction)@,
                store_object_id,
                root_directory_object_id,
                object,
            ),
            ({
                let attributes = object->0.item.value->Object_attributes;
                let project_id = if self.spec_needs_object() {
                    attributes.project_id
                } else {
                    0
                };
                let deleted = self.with_deletions(
                    old(transaction)@,
                    store_object_id,
                    root_directory_object_id,
                    project_id,
                );
                if self.deallocated == 0 || self.finished_object() {
                    &&& result == Result::<TrimResult, FxfsError>::Ok(self.result)
                    &&& final(transaction)@ == deleted
                } else if attributes.allocated_size < self.deallocated {
                    &&& result == Result::<TrimResult, FxfsError>::Err(FxfsError::Inconsistent)
                    &&& final(transaction)@ == deleted
                } else {
                    &&& result == Result::<TrimResult, FxfsError>::Ok(self.result)
                    &&& final(transaction)@ == deleted.plus(
                        store_object_id,
                        MutationV47::ObjectStore(
                            with_allocated_size(
                                object->0,
                                (attributes.allocated_size - self.deallocated) as u64,
                            ),
                        ),
                    )
                }
            }),
    {
        let finished_tombstone_object = self.is_finished_object();
        let finished_tombstone_attribute = matches!(
            self.mode,
            TrimMode::Tombstone(TombstoneMode::Attribute)
        ) && !matches!(self.result, TrimResult::Incomplete);
        let nodes: i64 = if finished_tombstone_object {
            -1
        } else {
            0
        };
        if nodes != 0 || self.deallocated != 0 {
            if let Some(mutation) = &object {
                if let ObjectValue::Object { attributes, .. } = &mutation.item.value {
                    if attributes.project_id != 0 {
                        let bytes: i64 = -(self.deallocated as i64);
                        transaction.add(
                            store_object_id,
                            MutationV47::merge_object(
                                ObjectKey::project_usage(
                                    root_directory_object_id,
                                    attributes.project_id,
                                ),
                                ObjectValue::BytesAndNodes { bytes, nodes },
                            ),
                        );
                    }
                }
            }
        }
        // Deletion marker records *must* be merged so as to consume all other records for the
        // object.
        if finished_tombstone_object {
            transaction.add(
                store_object_id,
                MutationV47::merge_object(
                    ObjectKey::object(self.object_id),
                    ObjectValue::Deleted,
                ),
            );
        } else {
            if finished_tombstone_attribute {
                transaction.add(
                    store_object_id,
                    MutationV47::merge_object(
                        ObjectKey::attribute(
                            self.object_id,
                            self.attribute_id,
                            AttributeKey::Attribute,
                        ),
                        ObjectValue::Deleted,
                    ),
                );
            }
            if self.deallocated > 0 {
                transaction.add(
                    store_object_id,
                    MutationV47::merge_object(
                        ObjectKey::extent(
                            self.object_id,
                            self.attribute_id,
                            self.aligned_offset,
                            self.end,
                        ),
                        ObjectValue::Extent(ExtentValue::Deleted),
                    ),
                );
                // Update allocated size.
                if let Some(mutation) = object {
                    if let ObjectValue::Object { attributes, .. } = &mutation.item.value {
                        // The only way for this to fail is if the volume is inconsistent.
                        match attributes.allocated_size.checked_sub(self.deallocated) {
                            None => {
                                return Err(FxfsError::Inconsistent);
                            },
                            Some(allocated_size) => {
                                let mutation = set_allocated_size(mutation, allocated_size);
                                transaction.add(store_object_id, MutationV47::ObjectStore(mutation));
                            },
                        }
                    }
                }
            }
        }
        Ok(self.result)
    }
}

/// `mutation`, of an object, with another allocated size.
pub open spec fn with_allocated_size(
    mutation: ObjectStoreMutation,
    allocated_size: u64,
) -> ObjectStoreMutation {
    ObjectStoreMutation {
        item: ObjectItem {
            value: ObjectValue::Object {
                kind: mutation.item.value->Object_kind,
                attributes: ObjectAttributes {
                    allocated_size,
                    ..mutation.item.value->Object_attributes
                },
            },
            ..mutation.item
        },
        ..mutation
    }
}

fn set_allocated_size(mutation: ObjectStoreMutation, allocated_size: u64) -> (changed:
    ObjectStoreMutation)
    requires
        mutation.item.value is Object,
    ensures
        changed == with_allocated_size(mutation, allocated_size),
{
    let op = mutation.op;
    let ObjectItem { key, value, sequence } = mutation.item;
    let value = match value {
        ObjectValue::Object { kind, attributes } => {
            let mut attributes = attributes;
            attributes.allocated_size = allocated_size;
            ObjectValue::Object { kind, attributes }
        },
        value => value,
    };
    ObjectStoreMutation { item: ObjectItem { key, value, sequence }, op }
}

/// Trimming beyond the size of an attribute leaves everything below the size alone, and so does
/// trimming from an offset on.
pub proof fn lemma_trim_keeps_data_below(
    object_id: u64,
    attribute_id: u64,
    mode: TrimMode,
    block_size: u64,
    first: Option<ObjectItem>,
    scan: TrimScan,
    extent: ExtentKey,
)
    requires
        block_size > 0,
        trim_start(object_id, attribute_id, mode, block_size, first)
            == Result::<Result<u64, TrimResult>, FxfsError>::Ok(Ok(scan.aligned_offset)),
    ensures
        mode matches TrimMode::FromOffset(offset) ==> scan.trimmed(extent).0 >= offset,
        mode == TrimMode::UseSize ==> first is Some && (size_record(first->0) matches Some((_, size))
            ==> scan.trimmed(extent).0 >= size),
        scan.trimmed(extent).0 >= extent.start,
        scan.trimmed(extent).1 == extent.end,
{
    match mode {
        TrimMode::FromOffset(offset) => {
            lemma_round_up(offset as int, block_size as int);
        },
        TrimMode::UseSize => {
            if let Some(item) = first {
                if let Some((_, size)) = size_record(item) {
                    lemma_round_up(size as int, block_size as int);
                }
            }
        },
        _ => {},
    }
}

/// Deleting an object or an attribute deallocates all of each extent.
pub proof fn lemma_tombstone_frees_whole_extents(
    object_id: u64,
    attribute_id: u64,
    tombstone: TombstoneMode,
    block_size: u64,
    first: Option<ObjectItem>,
    scan: TrimScan,
    extent: ExtentKey,
    device_offset: u64,
)
    requires
        trim_start(object_id, attribute_id, TrimMode::Tombstone(tombstone), block_size, first)
            == Result::<Result<u64, TrimResult>, FxfsError>::Ok(Ok(scan.aligned_offset)),
    ensures
        scan.trimmed_device_range(extent, device_offset) == (
            device_offset as int,
            device_offset + extent.end - extent.start,
        ),
{
}

/// Trimming in several transactions deallocates what trimming in one transaction does, in the same
/// order, and counts it all.
pub proof fn lemma_trim_in_parts(
    scan: TrimScan,
    items: Seq<ObjectItem>,
    rest: Seq<ObjectItem>,
)
    ensures
        scan.deallocations(items + rest) == scan.deallocations(items) + scan.deallocations(rest),
        total_len(scan.deallocations(items + rest)) == total_len(scan.deallocations(items))
            + total_len(scan.deallocations(rest)),
    decreases rest.len(),
{
    if rest.len() == 0 {
        assert(items + rest =~= items);
        assert(scan.deallocations(items) + scan.deallocations(rest) =~= scan.deallocations(items));
    } else {
        let shorter = rest.drop_last();
        lemma_trim_in_parts(scan, items, shorter);
        assert((items + rest).drop_last() =~= items + shorter);
        assert(scan.deallocations(items + rest) =~= scan.deallocations(items) + scan.deallocations(
            rest,
        ));
        if let Ok(Some(range)) = scan.trim_item(rest.last()) {
            assert(scan.deallocations(rest) == scan.deallocations(shorter).push(range));
            assert(scan.deallocations(rest).drop_last() =~= scan.deallocations(shorter));
            assert(scan.deallocations(items + rest).drop_last() =~= scan.deallocations(
                items + shorter,
            ));
        }
    }
}

/// Looking at the records `items`, and deallocating what `TrimScan::next` says, adds up what is
/// deallocated: each record adds the length of the range that is deallocated for it.
pub proof fn lemma_scan_adds_up(scan: TrimScan, items: Seq<ObjectItem>, item: ObjectItem)
    ensures
        total_len(scan.deallocations(items.push(item))) == total_len(scan.deallocations(items)) + (
        match scan.trim_item(item) {
            Ok(Some((start, end))) => end - start,
            _ => 0,
        }),
{
    let all = items.push(item);
    assert(all.drop_last() =~= items);
    if let Ok(Some(range)) = scan.trim_item(item) {
        assert(scan.deallocations(all).drop_last() =~= scan.deallocations(items));
    }
}

/// How trimming or deleting an object goes on after one of its attributes was trimmed.
pub open spec fn next_attribute(attribute_id: u64, result: TrimResult) -> Option<u64> {
    match result {
        TrimResult::Incomplete => Some(attribute_id),
        TrimResult::Done(next) => next,
    }
}

impl ObjectStore {
    /// The transaction, and the attribute to go on with, after an attribute of an object was trimmed.
    pub open spec fn trimmed_on(
        self,
        txn: TxnView,
        object_id: u64,
        attribute_id: u64,
        result: TrimResult,
        for_tombstone: bool,
        graveyard_entry: Option<ObjectItem>,
    ) -> (TxnView, Option<u64>) {
        let next = next_attribute(attribute_id, result);
        if next is None && (for_tombstone || (graveyard_entry matches Some(entry) && entry.value is Trim)) {
            (
                txn.plus(
                    self.store_object_id,
                    self.graveyard_mutation(object_id, ObjectValue::Deleted),
                ),
                next,
            )
        } else {
            (txn, next)
        }
    }

    /// The transaction, and whether to go on, after an attribute that is deleted was trimmed.
    pub open spec fn tombstoned_on(
        self,
        txn: TxnView,
        object_id: u64,
        attribute_id: u64,
        result: TrimResult,
    ) -> (TxnView, bool) {
        if result == TrimResult::Incomplete {
            (txn, true)
        } else {
            (
                txn.plus(
                    self.store_object_id,
                    MutationV47::object_mutation(
                        ObjectKey {
                            object_id: self.store_info->0.graveyard_directory_object_id,
                            data: ObjectKeyData::GraveyardAttributeEntry { object_id, attribute_id },
                        },
                        ObjectValue::Deleted,
                        OperationV32::ReplaceOrInsert,
                    ),
                ),
                false,
            )
        }
    }

    /// Goes on with trimming an object, or with deleting it if `for_tombstone` is set, after its
    /// attribute `attribute_id` was trimmed.  When the last attribute is done, the object is removed
    /// from the graveyard; `graveyard_entry` is its entry there.  Returns the attribute to go on with,
    /// in another transaction.
    pub fn trim_or_tombstone(
        &self,
        transaction: &mut Transaction,
        object_id: u64,
        attribute_id: u64,
        result: TrimResult,
        for_tombstone: bool,
        graveyard_entry: Option<&ObjectItem>,
    ) -> (next: Option<u64>)
        requires
            self.store_info is Some,
            self.store_object_id != INVALID_OBJECT_ID,
            old(transaction).wf(),
        ensures
            final(transaction).wf(),
            (final(transaction)@, next) == self.trimmed_on(
                old(transaction)@,
                object_id,
                attribute_id,
                result,
                for_tombstone,
                match graveyard_entry {
                    Some(entry) => Some(*entry),
                    None => None,
                },
            ),
            next == next_attribute(attribute_id, result),
            final(transaction)@ == (if next is None && (for_tombstone || (
            graveyard_entry matches Some(entry) && entry.value is Trim)) {
                old(transaction)@.plus(
                    self.store_object_id,
                    self.graveyard_mutation(object_id, ObjectValue::Deleted),
                )
            } else {
                old(transaction)@
            }),
    {
        match result {
            TrimResult::Incomplete => Some(attribute_id),
            TrimResult::Done(None) => {
                let waits = match graveyard_entry {
                    Some(entry) => matches!(entry.value, ObjectValue::Trim),
                    None => false,
                };
                if for_tombstone || waits {
                    self.remove_from_graveyard(transaction, object_id);
                }
                None
            },
            TrimResult::Done(next) => next,
        }
    }

    /// Goes on with deleting an attribute that is in the graveyard after it was trimmed.  Once it is
    /// done, it is removed from the graveyard.  Returns whether to go on, in another transaction.
    pub fn tombstone_attribute(
        &self,
        transaction: &mut Transaction,
        object_id: u64,
        attribute_id: u64,
        result: TrimResult,
    ) -> (more: bool)
        requires
            self.store_info is Some,
            self.store_object_id != INVALID_OBJECT_ID,
            old(transaction).wf(),
        ensures
            final(transaction).wf(),
            (final(transaction)@, more) == self.tombstoned_on(
                old(transaction)@,
                object_id,
                attribute_id,
                result,
            ),
            more == (result == TrimResult::Incomplete),
            final(transaction)@ == (if more {
                old(transaction)@
            } else {
                old(transaction)@.plus(
                    self.store_object_id,
                    MutationV47::object_mutation(
                        (ObjectKey {
                            object_id: self.store_info->0.graveyard_directory_object_id,
                            data: ObjectKeyData::GraveyardAttributeEntry { object_id, attribute_id },
                        }),
                        ObjectValue::Deleted,
                        OperationV32::ReplaceOrInsert,
                    ),
                )
            }),
    {
        match result {
            TrimResult::Incomplete => true,
            TrimResult::Done(_) => {
                self.remove_attribute_from_graveyard(transaction, object_id, attribute_id);
                false
            },
        }
    }
}

/// The locks that a transaction needs in order to trim an attribute.
pub open spec fn spec_trim_lock_keys(
    store_object_id: u64,
    object_id: u64,
    attribute_id: u64,
) -> Seq<LockKey> {
    seq![
        LockKey::ObjectAttribute { store_object_id, object_id, attribute_id },
        LockKey::Object { store_object_id, object_id },
    ]
}

/// Returns the locks that a transaction needs in order to trim an attribute: the attribute is
/// trimmed, and the sizes in the record of the object are changed.
pub fn trim_lock_keys(store_object_id: u64, object_id: u64, attribute_id: u64) -> (keys: LockKeys)
    ensures
        keys@ == spec_trim_lock_keys(store_object_id, object_id, attribute_id),
        keys@ == seq![
            LockKey::ObjectAttribute { store_object_id, object_id, attribute_id },
            LockKey::Object { store_object_id, object_id },
        ],
{
    let keys = LockKeys::Vec(
        vec![
            LockKey::object_attribute(store_object_id, object_id, attribute_id),
            LockKey::object(store_object_id, object_id),
        ],
    );
    assert(keys@ =~= seq![
        LockKey::ObjectAttribute { store_object_id, object_id, attribute_id },
        LockKey::Object { store_object_id, object_id },
    ]);
    keys
}

/// The mutation merges the deletion of the record `key`.
pub open spec fn is_deletion(mutation: Mutation, object_id: u64, data: ObjectKeyData) -> bool {
    &&& mutation matches MutationV47::ObjectStore(mutation)
    &&& mutation.op == OperationV32::Merge
    &&& mutation.item.key.object_id == object_id
    &&& mutation.item.key.data == data
    &&& mutation.item.value is Deleted
}

/// Once all of an object that is deleted is trimmed, the transaction merges the deletion of the object.
pub proof fn lemma_finished_object_is_deleted(
    scan: TrimScan,
    txn: TxnView,
    store: u64,
    root_directory: u64,
    object: Option<ObjectStoreMutation>,
)
    requires
        in_order(txn.mutations),
        scan.mode == TrimMode::Tombstone(TombstoneMode::Object),
        scan.result == TrimResult::Done(None),
        object matches Some(object) ==> object.item.key.data is Object,
    ensures
        ({
            let (after, result) = scan.finished(txn, store, root_directory, object);
            &&& result == Result::<TrimResult, FxfsError>::Ok(TrimResult::Done(None))
            &&& exists|m: Mutation| #[trigger]
                after.holds(store, m) && is_deletion(m, scan.object_id, ObjectKeyData::Object)
        }),
{
    lemma_what_finishing_adds(scan, txn, store, root_directory, object);
    let (after, result) = scan.finished(txn, store, root_directory, object);
    let deletion = MutationV47::object_mutation(
        ObjectKey::spec_object(scan.object_id),
        ObjectValue::Deleted,
        OperationV32::Merge,
    );
    assert(after.holds(store, deletion));
    assert(is_deletion(deletion, scan.object_id, ObjectKeyData::Object));
}

/// Once the deletion of an attribute is done, the transaction merges the deletion of the record of that
/// attribute, however much was deallocated in this step.
pub proof fn lemma_finished_attribute_is_deleted(
    scan: TrimScan,
    txn: TxnView,
    store: u64,
    root_directory: u64,
    object: Option<ObjectStoreMutation>,
)
    requires
        in_order(txn.mutations),
        scan.mode == TrimMode::Tombstone(TombstoneMode::Attribute),
        scan.result != TrimResult::Incomplete,
        object matches Some(object) ==> object.item.key.data is Object,
        scan.deallocated > 0 ==> object is Some,
    ensures
        ({
            let (after, result) = scan.finished(txn, store, root_directory, object);
            exists|m: Mutation| #[trigger]
                after.holds(store, m) && is_deletion(
                    m,
                    scan.object_id,
                    ObjectKeyData::Attribute(scan.attribute_id, AttributeKey::Attribute),
                )
        }),
{
    lemma_what_finishing_adds(scan, txn, store, root_directory, object);
    let (after, result) = scan.finished(txn, store, root_directory, object);
    let deletion = MutationV47::object_mutation(
        ObjectKey {
            object_id: scan.object_id,
            data: ObjectKeyData::Attribute(scan.attribute_id, AttributeKey::Attribute),
        },
        ObjectValue::Deleted,
        OperationV32::Merge,
    );
    assert(after.holds(store, deletion));
    assert(is_deletion(
        deletion,
        scan.object_id,
        ObjectKeyData::Attribute(scan.attribute_id, AttributeKey::Attribute),
    ));
}

/// Unless the whole object is deleted, the deletion of everything from where trimming started to where the last
/// extent ended is merged as soon as anything was deallocated.
pub proof fn lemma_trimmed_extents_are_deleted(
    scan: TrimScan,
    txn: TxnView,
    store: u64,
    root_directory: u64,
    object: Option<ObjectStoreMutation>,
)
    requires
        in_order(txn.mutations),
        scan.deallocated > 0,
        scan.mode != TrimMode::Tombstone(TombstoneMode::Object) || scan.result != TrimResult::Done(None),
        object matches Some(object) && object.item.key.data is Object,
    ensures
        ({
            let (after, result) = scan.finished(txn, store, root_directory, object);
            exists|m: Mutation| #[trigger]
                after.holds(store, m) && (m matches MutationV47::ObjectStore(m) && m.op
                    == OperationV32::Merge && m.item.key.object_id == scan.object_id
                    && m.item.key.data == ObjectKeyData::Attribute(
                    scan.attribute_id,
                    AttributeKey::Extent(ExtentKey { start: scan.aligned_offset, end: scan.end }),
                ) && m.item.value == ObjectValue::Extent(ExtentValue::Deleted))
        }),
{
    lemma_what_finishing_adds(scan, txn, store, root_directory, object);
    let (after, result) = scan.finished(txn, store, root_directory, object);
    let deletion = MutationV47::object_mutation(
        ObjectKey {
            object_id: scan.object_id,
            data: ObjectKeyData::Attribute(
                scan.attribute_id,
                AttributeKey::Extent(ExtentKey { start: scan.aligned_offset, end: scan.end }),
            ),
        },
        ObjectValue::Extent(ExtentValue::Deleted),
        OperationV32::Merge,
    );
    assert(after.holds(store, deletion));
}

/// What a project uses goes down by what was deallocated, and by one node once the object is deleted.  What no
/// project uses is not accounted.
pub proof fn lemma_usage_goes_down_by_what_was_trimmed(
    scan: TrimScan,
    txn: TxnView,
    store: u64,
    root_directory: u64,
    object: ObjectStoreMutation,
)
    requires
        in_order(txn.mutations),
        object.item.value is Object,
        object.item.key.data is Object,
        object.item.value->Object_attributes.project_id != 0,
        scan.deallocated <= i64::MAX,
        scan.deallocated > 0 || (scan.mode == TrimMode::Tombstone(TombstoneMode::Object) && scan.result
            == TrimResult::Done(None)),
    ensures
        ({
            let (after, result) = scan.finished(txn, store, root_directory, Some(object));
            exists|m: Mutation| #[trigger]
                after.holds(store, m) && (m matches MutationV47::ObjectStore(m) && m.op
                    == OperationV32::Merge && m.item.key.object_id == root_directory && m.item.key.data
                    == (ObjectKeyData::Project {
                    project_id: object.item.value->Object_attributes.project_id,
                    property: ProjectProperty::Usage,
                }) && (m.item.value matches ObjectValue::BytesAndNodes { bytes, nodes } && bytes
                    + scan.deallocated == 0 && nodes == (if scan.mode == TrimMode::Tombstone(
                    TombstoneMode::Object,
                ) && scan.result == TrimResult::Done(None) {
                    -1int
                } else {
                    0int
                })))
        }),
{
    lemma_what_finishing_adds(scan, txn, store, root_directory, Some(object));
    let (after, result) = scan.finished(txn, store, root_directory, Some(object));
    let project_id = object.item.value->Object_attributes.project_id;
    assert(after.holds(store, scan.usage_change(root_directory, project_id)));
}

/// Unless the whole object is deleted, its allocated size goes down by what was deallocated, and nothing else
/// of its record changes.  If less was allocated than was deallocated, the record is inconsistent, and that is the
/// only error there is.
pub proof fn lemma_allocated_size_goes_down_by_what_was_trimmed(
    scan: TrimScan,
    txn: TxnView,
    store: u64,
    root_directory: u64,
    object: ObjectStoreMutation,
)
    requires
        in_order(txn.mutations),
        object.item.value is Object,
        object.item.key.data is Object,
    ensures
        ({
            let (after, result) = scan.finished(txn, store, root_directory, Some(object));
            let was = object.item.value->Object_attributes;
            let deletes_object = scan.mode == TrimMode::Tombstone(TombstoneMode::Object) && scan.result
                == TrimResult::Done(None);
            &&& result == (if !deletes_object && was.allocated_size < scan.deallocated {
                Result::<TrimResult, FxfsError>::Err(FxfsError::Inconsistent)
            } else {
                Ok(scan.result)
            })
            &&& !deletes_object && 0 < scan.deallocated <= was.allocated_size ==> exists|
                m: ObjectStoreMutation,
            | #[trigger]
                after.holds(store, MutationV47::ObjectStore(m)) && m.item.key == object.item.key && m.op
                    == object.op && m.item.sequence == object.item.sequence && m.item.value is Object
                    && m.item.value->Object_kind == object.item.value->Object_kind && (
                m.item.value->Object_attributes).allocated_size + scan.deallocated
                    == was.allocated_size && m.item.value->Object_attributes == (ObjectAttributes {
                    allocated_size: (m.item.value->Object_attributes).allocated_size,
                    ..was
                })
        }),
{
    lemma_what_finishing_adds(scan, txn, store, root_directory, Some(object));
    let (after, result) = scan.finished(txn, store, root_directory, Some(object));
    let was = object.item.value->Object_attributes;
    if !scan.finished_object() && 0 < scan.deallocated <= was.allocated_size {
        let m = with_allocated_size(object, (was.allocated_size - scan.deallocated) as u64);
        assert(after.holds(store, MutationV47::ObjectStore(m)));
    }
}

/// Trimming that deallocated nothing and deletes nothing adds nothing.  In any case only records of the object
/// and of the usage of projects are touched: what the transaction does to anything else stays as it is.
pub proof fn lemma_trimming_touches_its_object_alone(
    scan: TrimScan,
    txn: TxnView,
    store: u64,
    root_directory: u64,
    object: Option<ObjectStoreMutation>,
    other_store: u64,
    other: Mutation,
)
    requires
        in_order(txn.mutations),
        object matches Some(object) ==> object.item.key.object_id == scan.object_id
            && object.item.key.data is Object,
        scan.deallocated > 0 ==> object is Some,
    ensures
        ({
            let (after, result) = scan.finished(txn, store, root_directory, object);
            &&& scan.deallocated == 0 && (scan.mode matches TrimMode::Tombstone(mode) ==> scan.result
                == TrimResult::Incomplete || (mode == TombstoneMode::Object && scan.result
                != TrimResult::Done(None))) ==> after == txn
            &&& other_store != store ==> (after.holds(other_store, other) <==> txn.holds(
                other_store,
                other,
            ))
            &&& !(other is ObjectStore) ==> (after.holds(other_store, other) <==> txn.holds(
                other_store,
                other,
            ))
            &&& (other matches MutationV47::ObjectStore(m) && m.item.key.object_id != scan.object_id && (
            m.item.key.object_id != root_directory || !(m.item.key.data is Project))) ==> (after.holds(
                other_store,
                other,
            ) <==> txn.holds(other_store, other))
        }),
{
    lemma_what_finishing_adds(scan, txn, store, root_directory, object);
}

/// Everything that finishing adds to a transaction, step by step.
proof fn lemma_what_finishing_adds(
    scan: TrimScan,
    txn: TxnView,
    store: u64,
    root_directory: u64,
    object: Option<ObjectStoreMutation>,
)
    requires
        in_order(txn.mutations),
        object matches Some(object) ==> object.item.key.data is Object,
        !scan.finished_object() && scan.deallocated > 0 ==> object is Some,
    ensures
        ({
            let (after, result) = scan.finished(txn, store, root_directory, object);
            let attributes = object->0.item.value->Object_attributes;
            let usage = scan.usage_change(root_directory, attributes.project_id);
            let object_deletion = MutationV47::object_mutation(
                ObjectKey::spec_object(scan.object_id),
                ObjectValue::Deleted,
                OperationV32::Merge,
            );
            let attribute_deletion = MutationV47::object_mutation(
                ObjectKey {
                    object_id: scan.object_id,
                    data: ObjectKeyData::Attribute(scan.attribute_id, AttributeKey::Attribute),
                },
                ObjectValue::Deleted,
                OperationV32::Merge,
            );
            let extent_deletion = MutationV47::object_mutation(
                ObjectKey {
                    object_id: scan.object_id,
                    data: ObjectKeyData::Attribute(
                        scan.attribute_id,
                        AttributeKey::Extent(ExtentKey { start: scan.aligned_offset, end: scan.end }),
                    ),
                },
                ObjectValue::Extent(ExtentValue::Deleted),
                OperationV32::Merge,
            );
            let sized = MutationV47::ObjectStore(
                with_allocated_size(
                    object->0,
                    (attributes.allocated_size - scan.deallocated) as u64,
                ),
            );
            &&& in_order(after.mutations)
            &&& (scan.finished_object() || scan.deallocated != 0) && attributes.project_id != 0
                ==> after.holds(store, usage)
            &&& scan.finished_object() ==> after.holds(store, object_deletion)
            &&& !scan.finished_object() && scan.finished_attribute() ==> after.holds(
                store,
                attribute_deletion,
            )
            &&& !scan.finished_object() && scan.deallocated > 0 ==> after.holds(store, extent_deletion)
            &&& !scan.finished_object() && 0 < scan.deallocated <= attributes.allocated_size
                ==> after.holds(store, sized)
            &&& forall|s: u64, m: Mutation| #[trigger]
                after.holds(s, m) ==> txn.holds(s, m) || s == store && (m == usage || m
                    == object_deletion || m == attribute_deletion || m == extent_deletion || (
                object is Some && m == sized))
            &&& forall|s: u64, m: Mutation| #[trigger]
                txn.holds(s, m) ==> after.holds(s, m) || s == store && (m.matches(usage) || m.matches(
                    object_deletion,
                ) || m.matches(attribute_deletion) || m.matches(extent_deletion) || (object is Some
                    && m.matches(sized)))
        }),
{
    let attributes = object->0.item.value->Object_attributes;
    let usage = scan.usage_change(root_directory, attributes.project_id);
    let object_deletion = MutationV47::object_mutation(
        ObjectKey::spec_object(scan.object_id),
        ObjectValue::Deleted,
        OperationV32::Merge,
    );
    let attribute_deletion = MutationV47::object_mutation(
        ObjectKey {
            object_id: scan.object_id,
            data: ObjectKeyData::Attribute(scan.attribute_id, AttributeKey::Attribute),
        },
        ObjectValue::Deleted,
        OperationV32::Merge,
    );
    let extent_deletion = MutationV47::object_mutation(
        ObjectKey {
            object_id: scan.object_id,
            data: ObjectKeyData::Attribute(
                scan.attribute_id,
                AttributeKey::Extent(ExtentKey { start: scan.aligned_offset, end: scan.end }),
            ),
        },
        ObjectValue::Extent(ExtentValue::Deleted),
        OperationV32::Merge,
    );
    let sized = MutationV47::ObjectStore(
        with_allocated_size(object->0, (attributes.allocated_size - scan.deallocated) as u64),
    );
    assert(!usage.matches(object_deletion) && !usage.matches(attribute_deletion) && !usage.matches(
        extent_deletion,
    ));
    assert(!attribute_deletion.matches(extent_deletion));
    if object is Some {
        assert(!usage.matches(sized) && !attribute_deletion.matches(sized)
            && !extent_deletion.matches(sized));
    }
    let t0 = txn;
    let t1 = if scan.spec_needs_object() && attributes.project_id != 0 {
        lemma_added_is_held(t0, store, usage);
        t0.plus(store, usage)
    } else {
        t0
    };
    if scan.finished_object() {
        lemma_added_is_held(t1, store, object_deletion);
    } else {
        let t2 = if scan.finished_attribute() {
            lemma_added_is_held(t1, store, attribute_deletion);
            t1.plus(store, attribute_deletion)
        } else {
            t1
        };
        if scan.deallocated > 0 {
            lemma_added_is_held(t2, store, extent_deletion);
            let t3 = t2.plus(store, extent_deletion);
            if attributes.allocated_size >= scan.deallocated {
                lemma_added_is_held(t3, store, sized);
            }
        }
    }
}

/// Only extents of the attribute that lie on the device are deallocated: from where trimming starts, or where the
/// extent starts if that is later, to the end of the extent, and where that part lies on the device.  Such an
/// extent is deallocated exactly if there is something of it to trim and that is aligned to blocks.
pub proof fn lemma_extents_are_trimmed_where_they_lie(
    scan: TrimScan,
    item: ObjectItem,
    extent: ExtentKey,
    device_offset: u64,
)
    requires
        scan.block_size > 0,
        scan.ends_on_device(item),
        item.key.object_id == scan.object_id,
        item.key.data == ObjectKeyData::Attribute(scan.attribute_id, AttributeKey::Extent(extent)),
        item.value matches ObjectValue::Extent(ExtentValue::Mapped { device_offset: offset, .. })
            && offset == device_offset,
    ensures
        ({
            let (after, step) = scan.stepped(Some(item));
            let start = if extent.start > scan.aligned_offset {
                extent.start as int
            } else {
                scan.aligned_offset as int
            };
            &&& step matches Ok(TrimStep::Deallocate(range)) ==> {
                &&& range.start - device_offset == start - extent.start
                &&& range.end - range.start == extent.end - start
                &&& range.start < range.end
                &&& range.start % scan.block_size == 0
                &&& range.end % scan.block_size == 0
                &&& after == (TrimScan { end: extent.end, ..scan })
            }
            &&& step is Ok <==> {
                &&& start < extent.end
                &&& device_offset + start - extent.start <= u64::MAX
                &&& (device_offset + start - extent.start) % (scan.block_size as int) == 0
                &&& (device_offset + extent.end - extent.start) % (scan.block_size as int) == 0
            }
            &&& step matches Ok(step) ==> step is Deallocate
            &&& step matches Err(error) ==> error == FxfsError::Inconsistent && after == scan
        }),
{
}

/// Trimming ends where the records of the object end, and at the next attribute, which it names; records of the
/// attribute that are no extents on the device are passed over.
pub proof fn lemma_trimming_ends_with_the_attribute(scan: TrimScan, item: ObjectItem)
    ensures
        scan.stepped(None) == (scan, Result::<TrimStep, FxfsError>::Ok(TrimStep::Finish)),
        item.key.object_id != scan.object_id ==> scan.stepped(Some(item)) == (
            scan,
            Result::<TrimStep, FxfsError>::Ok(TrimStep::Finish),
        ),
        item.key.object_id == scan.object_id && (item.key.data matches ObjectKeyData::Attribute(id, _) && id
            != scan.attribute_id) ==> {
            let (after, step) = scan.stepped(Some(item));
            &&& step == Result::<TrimStep, FxfsError>::Ok(TrimStep::Finish)
            &&& after.result == TrimResult::Done(Some(item.key.data->Attribute_0))
            &&& after == (TrimScan { result: after.result, ..scan })
        },
        item.key.object_id == scan.object_id && !(item.key.data is Attribute) ==> scan.stepped(Some(item))
            == (scan, Result::<TrimStep, FxfsError>::Ok(TrimStep::Advance)),
        item.key.object_id == scan.object_id && (item.key.data matches ObjectKeyData::Attribute(id, key) && id
            == scan.attribute_id && (key is Attribute || !(item.value is Extent) || item.value
            == ObjectValue::Extent(ExtentValue::Deleted))) ==> scan.stepped(Some(item)) == (
            scan,
            Result::<TrimStep, FxfsError>::Ok(TrimStep::Advance),
        ),
{
}

/// What is deallocated is counted byte by byte.  The step goes on, and what it comes to stays, while the
/// transaction has fewer than 200 mutations; from there on it is incomplete.
pub proof fn lemma_deallocated_bytes_are_counted(scan: TrimScan, range: DeviceRange, mutations: usize)
    requires
        range.start <= range.end,
        scan.deallocated + range.end - range.start <= u64::MAX,
    ensures
        ({
            let (after, more) = scan.counting(range, mutations);
            &&& after.deallocated - scan.deallocated == range.end - range.start
            &&& mutations < 200 ==> more && after.result == scan.result
            &&& mutations >= 200 ==> !more && after.result == TrimResult::Incomplete
            &&& after.object_id == scan.object_id
            &&& after.attribute_id == scan.attribute_id
            &&& after.mode == scan.mode
            &&& after.block_size == scan.block_size
            &&& after.aligned_offset == scan.aligned_offset
            &&& after.end == scan.end
        }),
{
}

/// Trimming starts at the first block from the size, or from the given offset, on; deleting starts at the
/// beginning.  An offset that has no such block is inconsistent.
pub proof fn lemma_trimming_starts_at_a_block(
    object_id: u64,
    attribute_id: u64,
    block_size: u64,
    offset: u64,
    first: Option<ObjectItem>,
    tombstone: TombstoneMode,
)
    requires
        block_size > 0,
    ensures
        trim_start(object_id, attribute_id, TrimMode::Tombstone(tombstone), block_size, first) == Result::<
            Result<u64, TrimResult>,
            FxfsError,
        >::Ok(Ok(0u64)),
        ({
            let start = trim_start(
                object_id,
                attribute_id,
                TrimMode::FromOffset(offset),
                block_size,
                first,
            );
            &&& offset + block_size - 1 <= u64::MAX ==> {
                &&& start is Ok
                &&& start->Ok_0 is Ok
                &&& offset <= start->Ok_0->Ok_0 < offset + block_size
                &&& start->Ok_0->Ok_0 % block_size == 0
            }
            &&& offset + block_size - 1 > u64::MAX ==> start == Result::<
                Result<u64, TrimResult>,
                FxfsError,
            >::Err(FxfsError::Inconsistent)
        }),
        first matches Some(item) && item.key.object_id == object_id && item.key.data
            == ObjectKeyData::Attribute(attribute_id, AttributeKey::Attribute) && (
        item.value matches ObjectValue::Attribute { size, .. } && size == offset) ==> trim_start(
            object_id,
            attribute_id,
            TrimMode::UseSize,
            block_size,
            first,
        ) == trim_start(object_id, attribute_id, TrimMode::FromOffset(offset), block_size, None),
{
    lemma_round_up(offset as int, block_size as int);
}

/// If no size is found for the attribute, there is nothing to trim: the object is done if its records have ended,
/// and otherwise the attribute whose size was found, or the next one, is to be looked at.
pub proof fn lemma_attributes_without_size_are_passed_over(
    object_id: u64,
    attribute_id: u64,
    block_size: u64,
    item: ObjectItem,
)
    ensures
        trim_start(object_id, attribute_id, TrimMode::UseSize, block_size, None) == Result::<
            Result<u64, TrimResult>,
            FxfsError,
        >::Ok(Err(TrimResult::Done(None))),
        item.key.object_id != object_id ==> trim_start(
            object_id,
            attribute_id,
            TrimMode::UseSize,
            block_size,
            Some(item),
        ) == Result::<Result<u64, TrimResult>, FxfsError>::Ok(Err(TrimResult::Done(None))),
        item.key.object_id == object_id && item.value is Attribute && (
        item.key.data matches ObjectKeyData::Attribute(id, AttributeKey::Attribute) && id != attribute_id)
            ==> trim_start(object_id, attribute_id, TrimMode::UseSize, block_size, Some(item))
            == Result::<Result<u64, TrimResult>, FxfsError>::Ok(
            Err(TrimResult::Done(Some(item.key.data->Attribute_0))),
        ),
        item.key.object_id == object_id && attribute_id < u64::MAX && !(item.value is Attribute)
            ==> trim_start(object_id, attribute_id, TrimMode::UseSize, block_size, Some(item))
            == Result::<Result<u64, TrimResult>, FxfsError>::Ok(
            Err(TrimResult::Done(Some((attribute_id + 1) as u64))),
        ),
{
}

/// An object is taken off the graveyard exactly when its last attribute is done, if it is being deleted or waits
/// there only to be trimmed.  Until then the same attribute follows one that is incomplete, and the next one
/// follows one that is done.
pub proof fn lemma_object_leaves_the_graveyard_when_done(
    store: ObjectStore,
    txn: TxnView,
    object_id: u64,
    attribute_id: u64,
    for_tombstone: bool,
    entry: Option<ObjectItem>,
    other: u64,
)
    requires
        in_order(txn.mutations),
    ensures
        store.trimmed_on(
            txn,
            object_id,
            attribute_id,
            TrimResult::Incomplete,
            for_tombstone,
            entry,
        ) == (txn, Some(attribute_id)),
        store.trimmed_on(
            txn,
            object_id,
            attribute_id,
            TrimResult::Done(Some(other)),
            for_tombstone,
            entry,
        ) == (txn, Some(other)),
        ({
            let (after, next) = store.trimmed_on(
                txn,
                object_id,
                attribute_id,
                TrimResult::Done(None),
                for_tombstone,
                entry,
            );
            let waits_to_be_trimmed = entry matches Some(entry) && entry.value is Trim;
            &&& next is None
            &&& !for_tombstone && !waits_to_be_trimmed ==> after == txn
            &&& for_tombstone || waits_to_be_trimmed ==> exists|m: ObjectStoreMutation| #[trigger]
                after.holds(store.store_object_id, MutationV47::ObjectStore(m)) && m.item.key.object_id
                    == store.store_info->0.graveyard_directory_object_id && m.item.key.data == (
                ObjectKeyData::GraveyardEntry { object_id }) && m.item.value is Deleted && m.op
                    == OperationV32::ReplaceOrInsert
        }),
{
    let (after, next) = store.trimmed_on(
        txn,
        object_id,
        attribute_id,
        TrimResult::Done(None),
        for_tombstone,
        entry,
    );
    let removal = store.graveyard_mutation(object_id, ObjectValue::Deleted);
    lemma_added_is_held(txn, store.store_object_id, removal);
    assert(removal is ObjectStore);
    if after != txn {
        assert(after.holds(
            store.store_object_id,
            MutationV47::ObjectStore(removal->ObjectStore_0),
        ));
    }
}

/// An attribute that is deleted is taken off the graveyard exactly when it is done.
pub proof fn lemma_attribute_leaves_the_graveyard_when_done(
    store: ObjectStore,
    txn: TxnView,
    object_id: u64,
    attribute_id: u64,
    next: Option<u64>,
)
    requires
        in_order(txn.mutations),
    ensures
        store.tombstoned_on(txn, object_id, attribute_id, TrimResult::Incomplete) == (txn, true),
        ({
            let (after, more) = store.tombstoned_on(
                txn,
                object_id,
                attribute_id,
                TrimResult::Done(next),
            );
            &&& !more
            &&& exists|m: ObjectStoreMutation| #[trigger]
                after.holds(store.store_object_id, MutationV47::ObjectStore(m)) && m.item.key.object_id
                    == store.store_info->0.graveyard_directory_object_id && m.item.key.data == (
                ObjectKeyData::GraveyardAttributeEntry { object_id, attribute_id })
                    && m.item.value is Deleted && m.op == OperationV32::ReplaceOrInsert
        }),
{
    let removal = MutationV47::object_mutation(
        ObjectKey {
            object_id: store.store_info->0.graveyard_directory_object_id,
            data: ObjectKeyData::GraveyardAttributeEntry { object_id, attribute_id },
        },
        ObjectValue::Deleted,
        OperationV32::ReplaceOrInsert,
    );
    lemma_added_is_held(txn, store.store_object_id, removal);
    let (after, more) = store.tombstoned_on(txn, object_id, attribute_id, TrimResult::Done(next));
    assert(after.holds(store.store_object_id, MutationV47::ObjectStore(removal->ObjectStore_0)));
}

/// A transaction with the locks for trimming may do what trimming does: change the object, and delete it.  It
/// also has the attribute for itself.
pub proof fn lemma_trim_locks_suffice(
    txn: TxnView,
    store: u64,
    object_id: u64,
    attribute_id: u64,
    mutation: ObjectStoreMutation,
)
    requires
        txn.txn_locks == spec_trim_lock_keys(store, object_id, attribute_id),
        mutation.item.key.object_id == object_id,
        mutation.item.key.data is Object,
    ensures
        txn.missing_lock(store, MutationV47::ObjectStore(mutation)) is None,
        txn.txn_locks.contains(
            LockKey::ObjectAttribute { store_object_id: store, object_id, attribute_id },
        ),
        txn.txn_locks.len() == 2,
{
    let locks = spec_trim_lock_keys(store, object_id, attribute_id);
    assert(locks[0] == LockKey::ObjectAttribute { store_object_id: store, object_id, attribute_id });
    assert(locks[1] == LockKey::Object { store_object_id: store, object_id });
}

/// What is to be trimmed of a record does not fit a device exactly if the record says where an extent of the attribute
/// lies, something of that extent is to be trimmed, and this begins on the device and ends beyond any.
pub proof fn lemma_what_does_not_fit_the_device(
    scan: TrimScan,
    item: ObjectItem,
    extent: ExtentKey,
    device_offset: u64,
    mode: ExtentMode,
    key_id: u64,
)
    ensures
        item.key.object_id != scan.object_id ==> scan.ends_on_device(item),
        item.key.data matches ObjectKeyData::Attribute(id, _) && id != scan.attribute_id
            ==> scan.ends_on_device(item),
        !(item.key.data is Attribute) || !(item.value is Extent) ==> scan.ends_on_device(item),
        item.key.object_id == scan.object_id && item.key.data == ObjectKeyData::Attribute(
            scan.attribute_id,
            AttributeKey::Extent(extent),
        ) && item.value == ObjectValue::Extent(ExtentValue::Mapped { device_offset, mode, key_id }) ==> {
            let start = if extent.start > scan.aligned_offset {
                extent.start as int
            } else {
                scan.aligned_offset as int
            };
            !scan.ends_on_device(item) <==> {
                &&& start < extent.end
                &&& device_offset + start - extent.start <= u64::MAX
                &&& device_offset + extent.end - extent.start > u64::MAX
            }
        },
{
}

} // verus!
