//! Telling the formats of block devices apart.
use crate::round::{lemma_round_up, round_up, spec_round_up};
use crate::text::same_text;
use vstd::prelude::*;

verus! {

#[derive(Clone, Copy, Debug, PartialEq, Eq, Structural)]
pub enum DiskFormat {
    Unknown,
    Gpt,
    Mbr,
    Minfs,
    Fat,
    Blobfs,
    Fvm,
    Zxcrypt,
    BlockVerity,
    VbMeta,
    BootPart,
    Fxfs,
    F2fs,
    NandBroker,
}

impl DiskFormat {
    /// The name of the format.
    pub open spec fn name(self) -> Seq<char> {
        match self {
            DiskFormat::Unknown => "unknown!"@,
            DiskFormat::Gpt => "gpt"@,
            DiskFormat::Mbr => "mbr"@,
            DiskFormat::Minfs => "minfs"@,
            DiskFormat::Fat => "fat"@,
            DiskFormat::Blobfs => "blobfs"@,
            DiskFormat::Fvm => "fvm"@,
            DiskFormat::Zxcrypt => "zxcrypt"@,
            DiskFormat::BlockVerity => "block verity"@,
            DiskFormat::VbMeta => "vbmeta"@,
            DiskFormat::BootPart => "bootpart"@,
            DiskFormat::Fxfs => "fxfs"@,
            DiskFormat::F2fs => "f2fs"@,
            DiskFormat::NandBroker => "nand broker"@,
        }
    }

    /// The format of that name, unknown if there is none.
    pub open spec fn named(name: Seq<char>) -> DiskFormat {
        if name == "gpt"@ {
            DiskFormat::Gpt
        } else if name == "mbr"@ {
            DiskFormat::Mbr
        } else if name == "minfs"@ {
            DiskFormat::Minfs
        } else if name == "fat"@ {
            DiskFormat::Fat
        } else if name == "blobfs"@ {
            DiskFormat::Blobfs
        } else if name == "fvm"@ {
            DiskFormat::Fvm
        } else if name == "zxcrypt"@ {
            DiskFormat::Zxcrypt
        } else if name == "block verity"@ {
            DiskFormat::BlockVerity
        } else if name == "vbmeta"@ {
            DiskFormat::VbMeta
        } else if name == "bootpart"@ {
            DiskFormat::BootPart
        } else if name == "fxfs"@ {
            DiskFormat::Fxfs
        } else if name == "f2fs"@ {
            DiskFormat::F2fs
        } else if name == "nand broker"@ {
            DiskFormat::NandBroker
        } else {
            DiskFormat::Unknown
        }
    }

    pub fn as_str(&self) -> (name: &'static str)
        ensures
            name@ == self.name(),
    {
        match self {
            DiskFormat::Unknown => "unknown!",
            DiskFormat::Gpt => "gpt",
            DiskFormat::Mbr => "mbr",
            DiskFormat::Minfs => "minfs",
            DiskFormat::Fat => "fat",
            DiskFormat::Blobfs => "blobfs",
            DiskFormat::Fvm => "fvm",
            DiskFormat::Zxcrypt => "zxcrypt",
            DiskFormat::BlockVerity => "block verity",
            DiskFormat::VbMeta => "vbmeta",
            DiskFormat::BootPart => "bootpart",
            DiskFormat::Fxfs => "fxfs",
            DiskFormat::F2fs => "f2fs",
            DiskFormat::NandBroker => "nand broker",
        }
    }
}

/// The inverse of DiskFormat::as_str().
impl From<&str> for DiskFormat {
    fn from(s: &str) -> (format: Self) {
        if same_text(s, "gpt") {
            DiskFormat::Gpt
        } else if same_text(s, "mbr") {
            DiskFormat::Mbr
        } else if same_text(s, "minfs") {
            DiskFormat::Minfs
        } else if same_text(s, "fat") {
            DiskFormat::Fat
        } else if same_text(s, "blobfs") {
            DiskFormat::Blobfs
        } else if same_text(s, "fvm") {
            DiskFormat::Fvm
        } else if same_text(s, "zxcrypt") {
            DiskFormat::Zxcrypt
        } else if same_text(s, "block verity") {
            DiskFormat::BlockVerity
        } else if same_text(s, "vbmeta") {
            DiskFormat::VbMeta
        } else if same_text(s, "bootpart") {
            DiskFormat::BootPart
        } else if same_text(s, "fxfs") {
            DiskFormat::Fxfs
        } else if same_text(s, "f2fs") {
            DiskFormat::F2fs
        } else if same_text(s, "nand broker") {
            DiskFormat::NandBroker
        } else {
            DiskFormat::Unknown
        }
    }
}

impl vstd::std_specs::convert::FromSpecImpl<&str> for DiskFormat {
    open spec fn obeys_from_spec() -> bool {
        true
    }

    open spec fn from_spec(s: &str) -> Self {
        DiskFormat::named(s@)
    }
}

/// Every format is found by its name, and different formats have different names.
pub proof fn lemma_name_round_trip(format: DiskFormat)
    ensures
        DiskFormat::named(format.name()) == format,
{
    reveal_strlit("unknown!");
    reveal_strlit("gpt");
    reveal_strlit("mbr");
    reveal_strlit("minfs");
    reveal_strlit("fat");
    reveal_strlit("blobfs");
    reveal_strlit("fvm");
    reveal_strlit("zxcrypt");
    reveal_strlit("block verity");
    reveal_strlit("vbmeta");
    reveal_strlit("bootpart");
    reveal_strlit("fxfs");
    reveal_strlit("f2fs");
    reveal_strlit("nand broker");
    assert("gpt"@[0] == 'g' && "mbr"@[0] == 'm');
    assert("fat"@[0] == 'f' && "fvm"@[0] == 'f');
    assert("fat"@[1] == 'a' && "fvm"@[1] == 'v');
    assert("fxfs"@[1] == 'x' && "f2fs"@[1] == '2');
    assert("blobfs"@[0] == 'b' && "vbmeta"@[0] == 'v');
    assert("unknown!"@[0] == 'u' && "bootpart"@[0] == 'b');
    assert("gpt"@.len() == 3 && "mbr"@.len() == 3 && "fat"@.len() == 3 && "fvm"@.len() == 3);
    assert("fxfs"@.len() == 4 && "f2fs"@.len() == 4 && "minfs"@.len() == 5);
    assert("blobfs"@.len() == 6 && "vbmeta"@.len() == 6 && "zxcrypt"@.len() == 7);
    assert("unknown!"@.len() == 8 && "bootpart"@.len() == 8);
    assert("nand broker"@.len() == 11 && "block verity"@.len() == 12);
}

/// The byte sequences by which formats are recognised.
pub struct FormatConstants {
    /// How much of the device has to be read at least.
    pub header_size: u32,
    pub fvm_magic: Vec<u8>,
    pub zxcrypt_magic: Vec<u8>,
    pub block_verity_magic: Vec<u8>,
    pub gpt_magic: Vec<u8>,
    pub minfs_magic: Vec<u8>,
    pub blobfs_magic: Vec<u8>,
    pub vb_meta_magic: Vec<u8>,
    pub f2fs_magic: Vec<u8>,
    pub fxfs_magic: Vec<u8>,
}

/// Where the magic of F2FS lies.
pub const F2FS_MAGIC_OFFSET: usize = 1024;

/// How long the magic of GPT is.
pub const GPT_MAGIC_SIZE: usize = 16;

impl FormatConstants {
    /// What is looked at lies in the header.
    pub open spec fn wf(self) -> bool {
        &&& self.gpt_magic@.len() == GPT_MAGIC_SIZE
        &&& F2FS_MAGIC_OFFSET + self.f2fs_magic@.len() <= self.header_size
    }
}

/// Why the format of a device cannot be told.
#[derive(Clone, Copy, Debug, PartialEq, Eq, Structural)]
pub enum DetectError {
    /// The block size is expected to be non-zero.
    ZeroBlockSize,
    /// Double the block size does not fit.
    DoubleBlockSizeOverflow,
    /// The size of the device does not fit.
    DeviceSizeOverflow,
    /// The header size, rounded up, does not fit.
    HeaderSizeOverflow,
}

/// The larger of the header size and two blocks.
pub open spec fn spec_header_size(block_size: u32, header_size: u32) -> int {
    if header_size > 2 * block_size {
        header_size as int
    } else {
        2 * block_size
    }
}

/// Returns how much has to be read of a device in order to tell its format, or none if the device is
/// smaller than that: this isn't necessarily an error, but it does mean its content can't be
/// inspected.
pub fn detection_size(block_size: u32, block_count: u64, header_size: u32) -> (size: Result<
    Option<u64>,
    DetectError,
>)
    ensures
        size == (if block_size == 0 {
            Err(DetectError::ZeroBlockSize)
        } else if 2 * block_size > u32::MAX {
            Err(DetectError::DoubleBlockSizeOverflow)
        } else if block_size * block_count > u64::MAX {
            Err(DetectError::DeviceSizeOverflow)
        } else if spec_header_size(block_size, header_size) > block_size * block_count {
            Ok(None)
        } else {
            Ok(
                Some(
                    spec_round_up(
                        spec_header_size(block_size, header_size),
                        block_size as int,
                    ) as u64,
                ),
            )
        }),
        size matches Ok(Some(size)) ==> header_size <= size && 2 * block_size <= size,
{
    if block_size == 0 {
        return Err(DetectError::ZeroBlockSize);
    }
    let double_block_size: u32 = match block_size.checked_mul(2) {
        Some(size) => size,
        None => {
            return Err(DetectError::DoubleBlockSizeOverflow);
        },
    };
    let header: u32 = if header_size > double_block_size {
        header_size
    } else {
        double_block_size
    };
    let device_size: u64 = match (block_size as u64).checked_mul(block_count) {
        Some(size) => size,
        None => {
            return Err(DetectError::DeviceSizeOverflow);
        },
    };
    if header as u64 > device_size {
        return Ok(None);
    }
    proof {
        lemma_round_up(header as int, block_size as int);
    }
    match round_up(header as u64, block_size as u64) {
        Some(size) => Ok(Some(size)),
        None => Err(DetectError::HeaderSizeOverflow),
    }
}

/// `data` holds `magic` at `offset`.
pub open spec fn holds(data: Seq<u8>, offset: int, magic: Seq<u8>) -> bool {
    offset + magic.len() <= data.len() && data.subrange(offset, offset + magic.len()) == magic
}

fn holds_magic(data: &Vec<u8>, offset: usize, magic: &Vec<u8>) -> (found: bool)
    requires
        offset <= data@.len(),
    ensures
        found == holds(data@, offset as int, magic@),
{
    let len: usize = data.len();
    if magic.len() > len - offset {
        return false;
    }
    let mut i: usize = 0;
    while i < magic.len()
        invariant
            i <= magic@.len(),
            offset + magic@.len() <= data@.len() == len,
            forall|j: int| 0 <= j < i ==> data@[offset + j] == magic@[j],
        decreases magic@.len() - i,
    {
        if data[offset + i] != magic[i] {
            assert(data@.subrange(offset as int, offset + magic@.len())[i as int] != magic@[i as int]);
            return false;
        }
        i += 1;
    }
    assert(data@.subrange(offset as int, offset + magic@.len()) =~= magic@);
    true
}

/// The format of a device that begins with `data`.
pub open spec fn format_of(data: Seq<u8>, block_size: int, constants: FormatConstants) -> DiskFormat {
    if holds(data, 0, constants.fvm_magic@) {
        DiskFormat::Fvm
    } else if holds(data, 0, constants.zxcrypt_magic@) {
        DiskFormat::Zxcrypt
    } else if holds(data, 0, constants.block_verity_magic@) {
        DiskFormat::BlockVerity
    } else if holds(data, block_size, constants.gpt_magic@) {
        DiskFormat::Gpt
    } else if holds(data, 0, constants.minfs_magic@) {
        DiskFormat::Minfs
    } else if holds(data, 0, constants.blobfs_magic@) {
        DiskFormat::Blobfs
    } else if holds(data, 0, constants.vb_meta_magic@) {
        DiskFormat::VbMeta
    } else if holds(data, F2FS_MAGIC_OFFSET as int, constants.f2fs_magic@) {
        DiskFormat::F2fs
    } else if holds(data, 0, constants.fxfs_magic@) {
        DiskFormat::Fxfs
    } else if data[510] == 0x55 && data[511] == 0xAA {
        if data[38] == 0x29 || data[66] == 0x29 {
            DiskFormat::Fat
        } else {
            DiskFormat::Mbr
        }
    } else {
        DiskFormat::Unknown
    }
}

/// Tells the format of a device that begins with `data`, as much as `detection_size` asks for.
pub fn classify(data: &Vec<u8>, block_size: u32, constants: &FormatConstants) -> (format: DiskFormat)
    requires
        constants.wf(),
        constants.header_size <= data@.len(),
        2 * block_size <= data@.len(),
    ensures
        format == format_of(data@, block_size as int, *constants),
{
    if holds_magic(data, 0, &constants.fvm_magic) {
        return DiskFormat::Fvm;
    }
    if holds_magic(data, 0, &constants.zxcrypt_magic) {
        return DiskFormat::Zxcrypt;
    }
    if holds_magic(data, 0, &constants.block_verity_magic) {
        return DiskFormat::BlockVerity;
    }
    if holds_magic(data, block_size as usize, &constants.gpt_magic) {
        return DiskFormat::Gpt;
    }
    if holds_magic(data, 0, &constants.minfs_magic) {
        return DiskFormat::Minfs;
    }
    if holds_magic(data, 0, &constants.blobfs_magic) {
        return DiskFormat::Blobfs;
    }
    if holds_magic(data, 0, &constants.vb_meta_magic) {
        return DiskFormat::VbMeta;
    }
    if holds_magic(data, F2FS_MAGIC_OFFSET, &constants.f2fs_magic) {
        return DiskFormat::F2fs;
    }
    if holds_magic(data, 0, &constants.fxfs_magic) {
        return DiskFormat::Fxfs;
    }
    // Check for Mbr and Fat last.  Since they only have two bytes of magic, it's fairly easy to
    // randomly encounter this combination.

    if data[510] == 0x55 && data[511] == 0xAA {
        if data[38] == 0x29 || data[66] == 0x29 {
            // 0x55AA are always placed at offset 510 and 511 for FAT filesystems.
            // 0x29 is the Boot Signature, but it is placed at either offset 38 or
            // 66 (depending on FAT type).
            return DiskFormat::Fat;
        }
        return DiskFormat::Mbr;
    }
    DiskFormat::Unknown
}

/// Tells the format of a device from what was read of it: `data` is none if the device is too small
/// to be inspected.
pub fn detect_disk_format_res(
    block_size: u32,
    block_count: u64,
    data: &Option<Vec<u8>>,
    constants: &FormatConstants,
) -> (format: Result<DiskFormat, DetectError>)
    requires
        constants.wf(),
        data matches Some(data) ==> constants.header_size <= data@.len() && 2 * block_size
            <= data@.len(),
    ensures
        format == (if block_size == 0 {
            Err(DetectError::ZeroBlockSize)
        } else if 2 * block_size > u32::MAX {
            Err(DetectError::DoubleBlockSizeOverflow)
        } else if block_size * block_count > u64::MAX {
            Err(DetectError::DeviceSizeOverflow)
        } else if spec_header_size(block_size, constants.header_size) > block_size * block_count {
            Ok(DiskFormat::Unknown)
        } else {
            match *data {
                Some(data) => Ok(format_of(data@, block_size as int, *constants)),
                None => Ok(DiskFormat::Unknown),
            }
        }),
{
    match detection_size(block_size, block_count, constants.header_size) {
        Err(error) => Err(error),
        Ok(None) => Ok(DiskFormat::Unknown),
        Ok(Some(_)) => match data {
            Some(data) => Ok(classify(data, block_size, constants)),
            None => Ok(DiskFormat::Unknown),
        },
    }
}

/// The format of a device that could not be told is unknown.
pub fn detect_disk_format(format: Result<DiskFormat, DetectError>) -> (told: DiskFormat)
    ensures
        told == (match format {
            Ok(format) => format,
            Err(_) => DiskFormat::Unknown,
        }),
{
    match format {
        Ok(format) => format,
        Err(_) => DiskFormat::Unknown,
    }
}

/// A device holds a magic where each byte of it stands in its place.
pub proof fn lemma_magic_is_found_byte_by_byte(data: Seq<u8>, offset: int, magic: Seq<u8>)
    requires
        0 <= offset,
    ensures
        holds(data, offset, magic) <==> {
            &&& offset + magic.len() <= data.len()
            &&& forall|i: int| 0 <= i < magic.len() ==> #[trigger] magic[i] == data[offset + i]
        },
{
    if offset + magic.len() <= data.len() {
        let part = data.subrange(offset, offset + magic.len());
        if part == magic {
            assert forall|i: int| 0 <= i < magic.len() implies #[trigger] magic[i] == data[offset
                + i] by {
                assert(part[i] == magic[i]);
            }
        }
        if forall|i: int| 0 <= i < magic.len() ==> #[trigger] magic[i] == data[offset + i] {
            assert(part =~= magic);
        }
    }
}

/// A device has the format of a magic that it holds in the right place, unless it holds the magic of a
/// format that is looked for earlier: GPT is looked for in the second block and F2FS at 1 KiB, the others at
/// the start of the device.
pub proof fn lemma_format_goes_by_the_magic(data: Seq<u8>, block_size: int, constants: FormatConstants)
    ensures
        ({
            let format = format_of(data, block_size, constants);
            &&& format == DiskFormat::Fvm <==> holds(data, 0, constants.fvm_magic@)
            &&& holds(data, 0, constants.zxcrypt_magic@) ==> format == DiskFormat::Zxcrypt || format
                == DiskFormat::Fvm
            &&& holds(data, 0, constants.block_verity_magic@) ==> format == DiskFormat::BlockVerity
                || format == DiskFormat::Zxcrypt || format == DiskFormat::Fvm
            &&& format == DiskFormat::Zxcrypt ==> holds(data, 0, constants.zxcrypt_magic@)
            &&& format == DiskFormat::BlockVerity ==> holds(data, 0, constants.block_verity_magic@)
            &&& format == DiskFormat::Gpt ==> holds(data, block_size, constants.gpt_magic@)
            &&& format == DiskFormat::Minfs ==> holds(data, 0, constants.minfs_magic@)
            &&& format == DiskFormat::Blobfs ==> holds(data, 0, constants.blobfs_magic@)
            &&& format == DiskFormat::VbMeta ==> holds(data, 0, constants.vb_meta_magic@)
            &&& format == DiskFormat::F2fs ==> holds(data, 1024, constants.f2fs_magic@)
            &&& format == DiskFormat::Fxfs ==> holds(data, 0, constants.fxfs_magic@)
            &&& format != DiskFormat::BootPart && format != DiskFormat::NandBroker
        }),
        ({
            let format = format_of(data, block_size, constants);
            let encrypted = holds(data, 0, constants.fvm_magic@) || holds(
                data,
                0,
                constants.zxcrypt_magic@,
            ) || holds(data, 0, constants.block_verity_magic@);
            let gpt = holds(data, block_size, constants.gpt_magic@);
            let minfs = holds(data, 0, constants.minfs_magic@);
            let blobfs = holds(data, 0, constants.blobfs_magic@);
            let vb_meta = holds(data, 0, constants.vb_meta_magic@);
            let f2fs = holds(data, 1024, constants.f2fs_magic@);
            &&& format == DiskFormat::Gpt <==> gpt && !encrypted
            &&& format == DiskFormat::Minfs <==> minfs && !gpt && !encrypted
            &&& format == DiskFormat::Blobfs <==> blobfs && !minfs && !gpt && !encrypted
            &&& format == DiskFormat::VbMeta <==> vb_meta && !blobfs && !minfs && !gpt && !encrypted
            &&& format == DiskFormat::F2fs <==> f2fs && !vb_meta && !blobfs && !minfs && !gpt
                && !encrypted
            &&& holds(data, 0, constants.fxfs_magic@) && !f2fs && !vb_meta && !blobfs && !minfs && !gpt
                && !encrypted ==> format == DiskFormat::Fxfs
        }),
{
}

/// A boot sector ends in 0x55 and 0xaa.  It is that of a FAT filesystem if it bears the signature of an extended
/// boot record, be it that of FAT12 and FAT16 or that of FAT32, and else it holds a partition table.
pub proof fn lemma_boot_sectors_are_told_apart(data: Seq<u8>, block_size: int, constants: FormatConstants)
    ensures
        ({
            let format = format_of(data, block_size, constants);
            let boots = data[510] == 0x55 && data[511] == 0xaa;
            &&& format == DiskFormat::Fat ==> boots && (data[38] == 0x29 || data[66] == 0x29)
            &&& format == DiskFormat::Mbr ==> boots && data[38] != 0x29 && data[66] != 0x29
            &&& format == DiskFormat::Unknown ==> !boots
            &&& format == DiskFormat::Unknown ==> !holds(data, 0, constants.fxfs_magic@) && !holds(
                data,
                1024,
                constants.f2fs_magic@,
            ) && !holds(data, 0, constants.blobfs_magic@) && !holds(data, 0, constants.minfs_magic@)
                && !holds(data, 0, constants.vb_meta_magic@) && !holds(
                data,
                block_size,
                constants.gpt_magic@,
            )
            &&& format == DiskFormat::Fat || format == DiskFormat::Mbr ==> !holds(
                data,
                0,
                constants.fxfs_magic@,
            )
        }),
{
}

/// What is read of a device holds the header and the first two blocks, and no more than one of them takes.
pub proof fn lemma_header_and_two_blocks_are_read(block_size: u32, header_size: u32)
    ensures
        spec_header_size(block_size, header_size) >= header_size,
        spec_header_size(block_size, header_size) >= 2 * block_size,
        spec_header_size(block_size, header_size) == header_size || spec_header_size(
            block_size,
            header_size,
        ) == 2 * block_size,
{
}

/// Every format but the unknown one goes by one name, and a name that is none of these is that of no format.
pub proof fn lemma_formats_go_by_their_names(name: Seq<char>)
    ensures
        DiskFormat::named(name) == DiskFormat::Gpt <==> name == "gpt"@,
        DiskFormat::named(name) == DiskFormat::Mbr <==> name == "mbr"@,
        DiskFormat::named(name) == DiskFormat::Minfs <==> name == "minfs"@,
        DiskFormat::named(name) == DiskFormat::Fat <==> name == "fat"@,
        DiskFormat::named(name) == DiskFormat::Blobfs <==> name == "blobfs"@,
        DiskFormat::named(name) == DiskFormat::Fvm <==> name == "fvm"@,
        DiskFormat::named(name) == DiskFormat::Zxcrypt <==> name == "zxcrypt"@,
        DiskFormat::named(name) == DiskFormat::BlockVerity <==> name == "block verity"@,
        DiskFormat::named(name) == DiskFormat::VbMeta <==> name == "vbmeta"@,
        DiskFormat::named(name) == DiskFormat::BootPart <==> name == "bootpart"@,
        DiskFormat::named(name) == DiskFormat::Fxfs <==> name == "fxfs"@,
        DiskFormat::named(name) == DiskFormat::F2fs <==> name == "f2fs"@,
        DiskFormat::named(name) == DiskFormat::NandBroker <==> name == "nand broker"@,
        DiskFormat::Unknown.name() == "unknown!"@,
{
    lemma_name_round_trip(DiskFormat::Gpt);
    lemma_name_round_trip(DiskFormat::Mbr);
    lemma_name_round_trip(DiskFormat::Minfs);
    lemma_name_round_trip(DiskFormat::Fat);
    lemma_name_round_trip(DiskFormat::Blobfs);
    lemma_name_round_trip(DiskFormat::Fvm);
    lemma_name_round_trip(DiskFormat::Zxcrypt);
    lemma_name_round_trip(DiskFormat::BlockVerity);
    lemma_name_round_trip(DiskFormat::VbMeta);
    lemma_name_round_trip(DiskFormat::BootPart);
    lemma_name_round_trip(DiskFormat::Fxfs);
    lemma_name_round_trip(DiskFormat::F2fs);
    lemma_name_round_trip(DiskFormat::NandBroker);
}

} // verus!
