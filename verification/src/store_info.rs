//! What is stored about an object store, and the identifiers that it hands out.
use crate::errors::FxfsError;
use crate::guid::{is_random_guid, UuidWrapperV32};
use crate::object_record::{FxfsKey, INVALID_OBJECT_ID};
use vstd::prelude::*;

verus! {

/// For encrypted stores, the lower 32 bits of the object ID are encrypted to make side-channel
/// attacks more difficult. This mask can be used to extract the hi part of the object ID.
pub const OBJECT_ID_HI_MASK: u64 = 0xffffffff00000000;

/// How large the stored form of `StoreInfo` may get.
pub const MAX_STORE_INFO_SERIALIZED_SIZE: usize = 131072;

/// StoreInfo stores information about the object store.  This is stored within the parent object
/// store, and is used, for example, to get the persistent layer objects.
pub type StoreInfo = StoreInfoV40;

#[derive(Debug)]
pub struct StoreInfoV40 {
    /// The globally unique identifier for the associated object store. If unset, will be all zero.
    pub guid: [u8; 16],
    /// The last used object ID.  Note that this field is not accurate in memory; ObjectStore's
    /// last_object_id field is the one to use in that case.
    pub last_object_id: u64,
    /// Object ids for layers.
    pub layers: Vec<u64>,
    /// The object ID for the root directory.
    pub root_directory_object_id: u64,
    /// The object ID for the graveyard.
    pub graveyard_directory_object_id: u64,
    /// The number of live objects in the store.  This should *not* be trusted; it can be invalid
    /// due to filesystem inconsistencies.
    pub object_count: u64,
    /// The (wrapped) key that encrypted mutations should use.
    pub mutations_key: Option<FxfsKey>,
    /// Mutations for the store are encrypted using a stream cipher.  To decrypt the mutations, we
    /// need to know the offset in the cipher stream to start it.
    pub mutations_cipher_offset: u64,
    /// If we have to flush the store whilst we do not have the key, we need to write the encrypted
    /// mutations to an object. This is the object ID of that file if it exists.
    pub encrypted_mutations_object_id: u64,
    /// Object IDs are encrypted to reduce the amount of information that sequential object IDs
    /// reveal (such as the number of files in the system and the ordering of their creation in
    /// time).  Only the bottom 32 bits of the object ID are encrypted whilst the top 32 bits will
    /// increment after 2^32 object IDs have been used and this allows us to roll the key.
    pub object_id_key: Option<FxfsKey>,
    /// A directory for storing internal files in a directory structure. Holds INVALID_OBJECT_ID
    /// when the directory doesn't yet exist.
    pub internal_directory_object_id: u64,
}

impl Default for StoreInfoV40 {
    fn default() -> (info: Self)
        ensures
            UuidWrapperV32(info.guid).spec_is_nil(),
            info.is_blank(),
    {
        StoreInfoV40::with_guid(UuidWrapperV32::nil().0)
    }
}

impl StoreInfoV40 {
    /// Nothing but the identifier is set.
    pub open spec fn is_blank(self) -> bool {
        &&& self.last_object_id == 0
        &&& self.layers@.len() == 0
        &&& self.root_directory_object_id == INVALID_OBJECT_ID
        &&& self.graveyard_directory_object_id == INVALID_OBJECT_ID
        &&& self.object_count == 0
        &&& self.mutations_key is None
        &&& self.mutations_cipher_offset == 0
        &&& self.encrypted_mutations_object_id == INVALID_OBJECT_ID
        &&& self.object_id_key is None
        &&& self.internal_directory_object_id == INVALID_OBJECT_ID
    }

    /// Create a new/default [`StoreInfo`] but with the given GUID.
    pub fn with_guid(guid: [u8; 16]) -> (info: Self)
        ensures
            info.guid == guid,
            info.is_blank(),
    {
        StoreInfoV40 {
            guid,
            last_object_id: 0,
            layers: Vec::new(),
            root_directory_object_id: INVALID_OBJECT_ID,
            graveyard_directory_object_id: INVALID_OBJECT_ID,
            object_count: 0,
            mutations_key: None,
            mutations_cipher_offset: 0,
            encrypted_mutations_object_id: INVALID_OBJECT_ID,
            object_id_key: None,
            internal_directory_object_id: INVALID_OBJECT_ID,
        }
    }

    /// Create a new/default [`StoreInfo`] but with a newly generated GUID.
    pub fn new_with_guid() -> (info: Self)
        ensures
            is_random_guid(info.guid),
            info.is_blank(),
    {
        StoreInfoV40::with_guid(UuidWrapperV32::new().0)
    }

    /// The objects in the parent store: the layers and, if there are any, the encrypted mutations.
    pub open spec fn spec_parent_objects(self) -> Seq<u64> {
        if self.encrypted_mutations_object_id != INVALID_OBJECT_ID {
            self.layers@.push(self.encrypted_mutations_object_id)
        } else {
            self.layers@
        }
    }

    /// Returns the parent objects for this store.
    ///
    /// The ID of the store itself is not among them, since that should be referred to in the volume
    /// directory.
    pub fn parent_objects(&self) -> (objects: Vec<u64>)
        ensures
            objects@ == self.spec_parent_objects(),
            objects@ == (if self.encrypted_mutations_object_id != INVALID_OBJECT_ID {
                self.layers@.push(self.encrypted_mutations_object_id)
            } else {
                self.layers@
            }),
    {
        let mut objects = self.layers.clone();
        assert(objects@ =~= self.layers@);
        if self.encrypted_mutations_object_id != INVALID_OBJECT_ID {
            objects.push(self.encrypted_mutations_object_id);
        }
        objects
    }

    /// The directories that exist, in the order root, graveyard, internal.
    pub open spec fn spec_root_objects(self) -> Seq<u64> {
        seq![
            self.root_directory_object_id,
            self.graveyard_directory_object_id,
            self.internal_directory_object_id,
        ].filter(|id: u64| id != INVALID_OBJECT_ID)
    }

    /// Returns root objects for this store.
    pub fn root_objects(&self) -> (objects: Vec<u64>)
        ensures
            objects@ == self.spec_root_objects(),
    {
        let mut objects: Vec<u64> = Vec::new();
        if self.root_directory_object_id != INVALID_OBJECT_ID {
            objects.push(self.root_directory_object_id);
        }
        if self.graveyard_directory_object_id != INVALID_OBJECT_ID {
            objects.push(self.graveyard_directory_object_id);
        }
        if self.internal_directory_object_id != INVALID_OBJECT_ID {
            objects.push(self.internal_directory_object_id);
        }
        proof {
            let ids = seq![
                self.root_directory_object_id,
                self.graveyard_directory_object_id,
                self.internal_directory_object_id,
            ];
            let f = |id: u64| id != INVALID_OBJECT_ID;
            reveal_with_fuel(Seq::filter, 4);
            assert(ids.drop_last() =~= seq![ids[0], ids[1]]);
            assert(ids.drop_last().drop_last() =~= seq![ids[0]]);
            assert(ids.drop_last().drop_last().drop_last() =~= Seq::empty());
            assert(objects@ =~= ids.filter(f));
        }
        objects
    }
}

/// The metadata space that is reserved for encrypted mutations of that size.
pub open spec fn spec_layer_size(size: int) -> int {
    size * 3
}

/// Returns the worst case estimate of the amount of metadata space that might need to be reserved to
/// allow encrypted mutations of that size to be written to layer files.
///
/// It needs to be >= than what is reserved once the data has been written to layer files and <= than
/// what is reserved for the same amount of journal.  The two differ because the encrypted mutations
/// file includes some extra data (it includes the checkpoints) that isn't written in the same way to
/// the journal.
pub fn layer_size_from_encrypted_mutations_size(size: u64) -> (layer_size: u64)
    requires
        size * 3 <= u64::MAX,
    ensures
        layer_size == spec_layer_size(size as int),
        layer_size == size * 3,
{
    size * 3
}

/// The last object ID that a store handed out.
pub struct LastObjectId {
    /// The *unencrypted* value of the last object ID.
    pub id: u64,
    /// Encrypted stores will use a cipher to obfuscate the object ID.
    pub has_cipher: bool,
}

/// An object ID, or what remains to be done for it.
#[derive(Clone, Copy, Debug, PartialEq, Eq, Structural)]
pub enum NextObjectId {
    /// The ID can be used as it is.
    Plain(u64),
    /// The lower half has to be encrypted.
    Encrypt { hi: u64, lo: u32 },
}

/// The upper half of an ID, in place.
pub open spec fn hi_part(id: u64) -> u64 {
    id & OBJECT_ID_HI_MASK
}

/// The lower half of an ID.
pub open spec fn lo_part(id: u64) -> u32 {
    (id % 0x1_0000_0000) as u32
}

proof fn lemma_split(id: u64)
    ensures
        hi_part(id) == id - id % 0x1_0000_0000,
        hi_part(id) % 0x1_0000_0000 == 0,
        (id as u32) == lo_part(id),
        hi_part(hi_part(id)) == hi_part(id),
{
    assert(id & 0xffffffff00000000 == id - id % 0x1_0000_0000) by (bit_vector);
    assert(id as u32 == id % 0x1_0000_0000) by (bit_vector);
    assert((id & 0xffffffff00000000) & 0xffffffff00000000 == id & 0xffffffff00000000)
        by (bit_vector);
}

/// An ID that is put together from an upper and a lower half has these halves.
pub proof fn lemma_join(hi: u64, lo: u32)
    requires
        hi % 0x1_0000_0000 == 0,
    ensures
        hi | lo as u64 == hi + lo,
        hi_part(hi | lo as u64) == hi,
        lo_part(hi | lo as u64) == lo,
{
    assert(hi % 0x1_0000_0000 == 0 ==> hi | lo as u64 == hi + lo as u64) by (bit_vector);
    assert(hi % 0x1_0000_0000 == 0 ==> (hi | lo as u64) & 0xffffffff00000000 == hi)
        by (bit_vector);
    assert(hi % 0x1_0000_0000 == 0 ==> (hi | lo as u64) % 0x1_0000_0000 == lo as u64)
        by (bit_vector);
}

/// Puts an ID together from its upper half and its encrypted lower half.
pub fn join_object_id(hi: u64, lo: u32) -> (id: u64)
    requires
        hi % 0x1_0000_0000 == 0,
    ensures
        id == hi + lo,
        hi_part(id) == hi,
        lo_part(id) == lo,
{
    proof {
        lemma_join(hi, lo);
    }
    hi | lo as u64
}

impl Default for LastObjectId {
    fn default() -> (last: Self)
        ensures
            last.id == 0,
            !last.has_cipher,
    {
        LastObjectId { id: 0, has_cipher: false }
    }
}

impl LastObjectId {
    /// All lower halves that go with the upper half were used.
    pub open spec fn is_used_up(self) -> bool {
        lo_part(self.id) == u32::MAX
    }

    /// The ID after the last one, and what remains to be done for it.
    pub open spec fn next_id(self) -> (LastObjectId, NextObjectId) {
        let id = (self.id + 1) as u64;
        (
            LastObjectId { id, ..self },
            if self.has_cipher {
                NextObjectId::Encrypt { hi: hi_part(id), lo: lo_part(id) }
            } else {
                NextObjectId::Plain(id)
            },
        )
    }

    /// The last ID once `object_id` was found to be in use, unless it is none of an unencrypted store.
    pub open spec fn bumped(self, object_id: u64) -> (LastObjectId, Result<(), ()>) {
        if object_id <= self.id {
            (self, Ok(()))
        } else if object_id >= u32::MAX || self.has_cipher {
            (self, Err(()))
        } else {
            (LastObjectId { id: object_id, ..self }, Ok(()))
        }
    }

    /// The last object ID of a new encrypted store.  We need to avoid accidentally getting
    /// INVALID_OBJECT_ID, so the top 32 bits are a non-zero value.
    pub fn new_encrypted() -> (last: Self)
        ensures
            last.id == 0x1_0000_0000,
            last.has_cipher,
            hi_part(last.id) != 0,
    {
        proof {
            lemma_split(0x1_0000_0000);
        }
        LastObjectId { id: 0x1_0000_0000, has_cipher: true }
    }

    /// Returns true if a cipher is needed to generate new object IDs.
    pub fn should_create_cipher(&self) -> (should: bool)
        ensures
            should == self.is_used_up(),
            should == (lo_part(self.id) == u32::MAX),
    {
        proof {
            lemma_split(self.id);
        }
        self.id as u32 == u32::MAX
    }

    /// Goes on to the next object ID.
    ///
    /// With a cipher, the lower half must not wrap: a new cipher is due before that.
    pub fn get_next_object_id(&mut self) -> (next: NextObjectId)
        requires
            old(self).id < u64::MAX,
            old(self).has_cipher ==> lo_part(old(self).id) < u32::MAX && hi_part(old(self).id) != 0,
        ensures
            (*final(self), next) == old(self).next_id(),
            final(self).id == old(self).id + 1,
            final(self).has_cipher == old(self).has_cipher,
            next == (if old(self).has_cipher {
                NextObjectId::Encrypt {
                    hi: hi_part((old(self).id + 1) as u64),
                    lo: lo_part((old(self).id + 1) as u64),
                }
            } else {
                NextObjectId::Plain((old(self).id + 1) as u64)
            }),
            old(self).has_cipher ==> hi_part(final(self).id) == hi_part(old(self).id),
            old(self).has_cipher ==> lo_part(final(self).id) == lo_part(old(self).id) + 1,
    {
        proof {
            lemma_split(self.id);
            lemma_split((self.id + 1) as u64);
        }
        self.id = self.id + 1;
        if self.has_cipher {
            let hi: u64 = self.id & OBJECT_ID_HI_MASK;
            NextObjectId::Encrypt { hi, lo: self.id as u32 }
        } else {
            NextObjectId::Plain(self.id)
        }
    }

    /// Goes on to the next object ID, unless the cipher needs to be created or rolled first.
    pub fn maybe_get_next_object_id(&mut self) -> (next: Option<NextObjectId>)
        requires
            old(self).has_cipher ==> hi_part(old(self).id) != 0,
        ensures
            next is None <==> old(self).is_used_up(),
            next matches Some(next) ==> (*final(self), next) == old(self).next_id(),
            next is None <==> lo_part(old(self).id) == u32::MAX,
            next is None ==> *final(self) == *old(self),
            next matches Some(next) ==> {
                &&& final(self).id == old(self).id + 1
                &&& final(self).has_cipher == old(self).has_cipher
                &&& next == (if old(self).has_cipher {
                    NextObjectId::Encrypt {
                        hi: hi_part(final(self).id),
                        lo: lo_part(final(self).id),
                    }
                } else {
                    NextObjectId::Plain(final(self).id)
                })
            },
    {
        if self.should_create_cipher() {
            None
        } else {
            Some(self.get_next_object_id())
        }
    }

    /// Returns whether the upper half can still be raised in order to roll the cipher.  It shouldn't
    /// be possible for the last object ID to wrap within our lifetime, so if it can't, it's most
    /// likely due to corruption.
    pub fn can_roll(&self) -> (can: bool)
        ensures
            can == (hi_part(self.id) != OBJECT_ID_HI_MASK),
    {
        self.id & OBJECT_ID_HI_MASK != OBJECT_ID_HI_MASK
    }

    /// Goes on to the next object ID, if another task has created a cipher meanwhile.  Otherwise a cipher
    /// is to be created, if it can be.
    pub fn retry_next_object_id(&mut self) -> (next: Result<Option<NextObjectId>, FxfsError>)
        requires
            old(self).has_cipher ==> hi_part(old(self).id) != 0,
        ensures
            match next {
                Ok(Some(next)) => {
                    &&& !old(self).is_used_up()
                    &&& (*final(self), next) == old(self).next_id()
                    &&& lo_part(old(self).id) != u32::MAX
                    &&& final(self).id == old(self).id + 1
                    &&& final(self).has_cipher == old(self).has_cipher
                    &&& next == (if old(self).has_cipher {
                        NextObjectId::Encrypt {
                            hi: hi_part(final(self).id),
                            lo: lo_part(final(self).id),
                        }
                    } else {
                        NextObjectId::Plain(final(self).id)
                    })
                },
                Ok(None) => {
                    &&& lo_part(old(self).id) == u32::MAX
                    &&& hi_part(old(self).id) != OBJECT_ID_HI_MASK
                    &&& *final(self) == *old(self)
                },
                Err(error) => {
                    &&& error == FxfsError::Inconsistent
                    &&& lo_part(old(self).id) == u32::MAX
                    &&& hi_part(old(self).id) == OBJECT_ID_HI_MASK
                    &&& *final(self) == *old(self)
                },
            },
    {
        if !self.should_create_cipher() {
            // We lost a race.
            return Ok(self.maybe_get_next_object_id());
        }
        if !self.can_roll() {
            return Err(FxfsError::Inconsistent);
        }
        Ok(None)
    }

    /// Starts to use a new cipher: the upper half is raised by one and the lower half starts from
    /// zero.  Returns what to encrypt with the new cipher for the first ID.
    pub fn roll_cipher(&mut self) -> (next: NextObjectId)
        requires
            hi_part(old(self).id) != OBJECT_ID_HI_MASK,
        ensures
            final(self).id == hi_part(old(self).id) + 0x1_0000_0000,
            final(self).has_cipher,
            next == (NextObjectId::Encrypt { hi: final(self).id, lo: 0 }),
            hi_part(final(self).id) == final(self).id,
            lo_part(final(self).id) == 0,
            final(self).id != INVALID_OBJECT_ID,
    {
        let id: u64 = self.id;
        proof {
            lemma_split(id);
            assert(id & 0xffffffff00000000 != 0xffffffff00000000 ==> id <= 0xfffffffeffffffff)
                by (bit_vector);
            let sum = (id + 0x1_0000_0000) as u64;
            lemma_split(sum);
            assert(id <= 0xfffffffeffffffff && sum == id + 0x1_0000_0000 ==> sum
                & 0xffffffff00000000 == (id & 0xffffffff00000000) + 0x1_0000_0000) by (bit_vector);
            lemma_split(sum & OBJECT_ID_HI_MASK);
        }
        self.has_cipher = true;
        self.id = (id + 0x1_0000_0000) & OBJECT_ID_HI_MASK;
        NextObjectId::Encrypt { hi: self.id, lo: 0 }
    }

    /// Notes that `object_id` has been used.  For encrypted stores, `decrypted` is the lower half of
    /// it, decrypted.
    ///
    /// If the object ID cipher has been rolled, then it's possible we might see object IDs that were
    /// generated using a different cipher so the decryption will return the wrong value, but that
    /// won't matter because the hi part of the object ID should still discriminate.
    pub fn update_last_object_id(&mut self, object_id: u64, decrypted: Option<u32>)
        requires
            old(self).has_cipher <==> decrypted is Some,
        ensures
            final(self).has_cipher == old(self).has_cipher,
            ({
                let id = match decrypted {
                    Some(lo) => (hi_part(object_id) + lo) as u64,
                    None => object_id,
                };
                final(self).id == (if id > old(self).id {
                    id
                } else {
                    old(self).id
                })
            }),
    {
        let id: u64 = match decrypted {
            Some(lo) => {
                proof {
                    lemma_split(object_id);
                }
                join_object_id(object_id & OBJECT_ID_HI_MASK, lo)
            },
            None => object_id,
        };
        if id > self.id {
            self.id = id;
        }
    }

    /// Bumps the unencrypted last object ID if `object_id` is greater than the current maximum.
    /// Fails, and changes nothing, unless the ID is one of an unencrypted store.
    pub fn maybe_bump_last_object_id(&mut self, object_id: u64) -> (bumped: Result<(), ()>)
        ensures
            (*final(self), bumped) == old(self).bumped(object_id),
            bumped is Err <==> object_id > old(self).id && (object_id >= u32::MAX || old(
                self,
            ).has_cipher),
            final(self).has_cipher == old(self).has_cipher,
            final(self).id == (if bumped is Ok && object_id > old(self).id {
                object_id
            } else {
                old(self).id
            }),
    {
        if object_id > self.id {
            if !(object_id < u32::MAX as u64 && !self.has_cipher) {
                return Err(());
            }
            self.id = object_id;
        }
        Ok(())
    }
}

/// Object IDs of an encrypted store are never the invalid one, and two of them with the same upper
/// half differ exactly if their encrypted lower halves differ.
pub proof fn lemma_encrypted_ids_differ(hi: u64, lo_a: u32, lo_b: u32)
    requires
        hi % 0x1_0000_0000 == 0,
        hi != 0,
    ensures
        hi | lo_a as u64 != INVALID_OBJECT_ID,
        hi | lo_a as u64 == hi | lo_b as u64 <==> lo_a == lo_b,
{
    lemma_join(hi, lo_a);
    lemma_join(hi, lo_b);
}

/// IDs that are handed out before and after the cipher is rolled differ in their upper half,
/// whatever the ciphers do.
pub proof fn lemma_rolled_ids_differ(id: u64, lo_a: u32, lo_b: u32)
    requires
        hi_part(id) != OBJECT_ID_HI_MASK,
    ensures
        hi_part(id) | lo_a as u64 != ((hi_part(id) + 0x1_0000_0000) as u64) | lo_b as u64,
{
    lemma_split(id);
    assert(id & 0xffffffff00000000 != 0xffffffff00000000 ==> (id & 0xffffffff00000000)
        <= 0xfffffffe00000000) by (bit_vector);
    lemma_join(hi_part(id), lo_a);
    lemma_join((hi_part(id) + 0x1_0000_0000) as u64, lo_b);
}

/// The ID that is handed out is the one after the last; its halves are put together again to that ID.  So no ID
/// is handed out twice before the cipher is rolled.
pub proof fn lemma_ids_are_handed_out_one_by_one(last: LastObjectId)
    requires
        last.id < u64::MAX,
    ensures
        ({
            let (after, next) = last.next_id();
            &&& after.id == last.id + 1
            &&& after.has_cipher == last.has_cipher
            &&& next is Encrypt <==> last.has_cipher
            &&& next matches NextObjectId::Plain(id) ==> id == last.id + 1
            &&& next matches NextObjectId::Encrypt { hi, lo } ==> hi + lo == last.id + 1 && hi
                % 0x1_0000_0000 == 0
        }),
{
    lemma_split((last.id + 1) as u64);
}

/// The IDs of an upper half are used up exactly if the next ID has another one.
pub proof fn lemma_cipher_is_due_when_the_upper_half_changes(last: LastObjectId)
    requires
        last.id < u64::MAX,
    ensures
        last.is_used_up() <==> hi_part((last.id + 1) as u64) != hi_part(last.id),
        last.is_used_up() <==> lo_part((last.id + 1) as u64) == 0,
        last.is_used_up() ==> hi_part((last.id + 1) as u64) == hi_part(last.id) + 0x1_0000_0000,
{
    lemma_split(last.id);
    lemma_split((last.id + 1) as u64);
}

/// An ID that is found to be in use is not handed out again.  The last ID never goes back, and if the ID cannot be
/// one of an unencrypted store, it stays.
pub proof fn lemma_found_ids_are_not_handed_out(last: LastObjectId, object_id: u64)
    ensures
        ({
            let (after, bumped) = last.bumped(object_id);
            &&& bumped is Ok ==> after.id >= object_id && after.id >= last.id && (after.id == object_id
                || after.id == last.id)
            &&& bumped is Err ==> after == last
            &&& bumped is Err <==> object_id > last.id && (last.has_cipher || object_id >= 0xffff_ffff)
            &&& after.has_cipher == last.has_cipher
        }),
{
}

/// The objects in the parent store are the layers, in order, and after them the encrypted mutations if there are
/// any; nothing else.
pub proof fn lemma_parent_objects_are_layers_and_mutations(info: StoreInfo)
    ensures
        ({
            let objects = info.spec_parent_objects();
            &&& forall|i: int| 0 <= i < info.layers@.len() ==> #[trigger] objects[i] == info.layers@[i]
            &&& info.encrypted_mutations_object_id == 0 ==> objects.len() == info.layers@.len()
            &&& info.encrypted_mutations_object_id != 0 ==> objects.len() == info.layers@.len() + 1
                && objects.last() == info.encrypted_mutations_object_id
        }),
{
}

/// The directories of a store are its root, its graveyard and its internal directory, each if it exists, and
/// nothing else.
pub proof fn lemma_root_objects_are_the_directories(info: StoreInfo, object_id: u64)
    ensures
        info.spec_root_objects().contains(object_id) <==> object_id != 0 && (object_id
            == info.root_directory_object_id || object_id == info.graveyard_directory_object_id || object_id
            == info.internal_directory_object_id),
{
    broadcast use vstd::seq_lib::group_filter_ensures;

    let all = seq![
        info.root_directory_object_id,
        info.graveyard_directory_object_id,
        info.internal_directory_object_id,
    ];
    let exists_ = |id: u64| id != INVALID_OBJECT_ID;
    assert(info.spec_root_objects() == all.filter(exists_));
    assert(all[0] == info.root_directory_object_id);
    assert(all[1] == info.graveyard_directory_object_id);
    assert(all[2] == info.internal_directory_object_id);
    if info.spec_root_objects().contains(object_id) {
        let i = choose|i: int| 0 <= i < all.filter(exists_).len() && all.filter(exists_)[i] == object_id;
        all.lemma_filter_contains_rev(exists_, object_id);
        assert(exists_(all.filter(exists_)[i]));
    }
    if object_id != 0 && all.contains(object_id) {
        let i = choose|i: int| 0 <= i < all.len() && all[i] == object_id;
        assert(exists_(all[i]));
        assert(all.filter(exists_).contains(all[i]));
    }
}

/// Every byte of encrypted mutations reserves three.
pub proof fn lemma_each_byte_reserves_three(size: int, more: int)
    ensures
        spec_layer_size(0) == 0,
        spec_layer_size(size + 1) - spec_layer_size(size) == 3,
        spec_layer_size(size + more) == spec_layer_size(size) + spec_layer_size(more),
{
}

/// Of a blank store nothing is set: it has no objects, no layers, no keys and no directories.
pub proof fn lemma_blank_stores_have_nothing(info: StoreInfoV40)
    requires
        info.is_blank(),
    ensures
        info.last_object_id == 0 && info.object_count == 0,
        info.layers@.len() == 0,
        info.root_directory_object_id == 0 && info.graveyard_directory_object_id == 0,
        info.internal_directory_object_id == 0,
        info.mutations_key is None && info.object_id_key is None,
        info.mutations_cipher_offset == 0 && info.encrypted_mutations_object_id == 0,
{
}

} // verus!
