//! Golden images: one image of the filesystem for each version of its format, which later versions must
//! be able to read.
use crate::fake_device::{DeviceError, DeviceView, FakeDevice, Op};
use crate::journal::Version;
use crate::round::{lemma_round_up, round_up, spec_round_up};
use crate::text::{
    decimal, decimal_text, is_sorted_texts, lemma_decimal_can_be_read_back, same_text, sort_texts, text_lt, texts,
};
use vstd::prelude::*;

verus! {

pub const IMAGE_BLOCKS: u64 = 8192;

pub const IMAGE_BLOCK_SIZE: u32 = 1024;

/// Version of first image with a verified file.
pub const FSCRYPT_VERSION_START: u32 = 47;

pub const FXFS_GOLDEN_IMAGE_DIR: &'static str = "src/storage/fxfs/testdata";

pub const DEFAULT_VOLUME: &'static str = "default";

pub const UNENCRYPTED_VOLUME: &'static str = "unencrypted";

/// What the files of an image hold.
pub const EXPECTED_FILE_CONTENT: [u8; 8] = [0x63, 0x6f, 0x6e, 0x74, 0x65, 0x6e, 0x74, 0x2e];

/// The project of the directory in an image.
pub const PROJECT_ID: u64 = 4;

/// The file that is added to an image when it is checked.
pub const CHECK_FILE_PATH: &'static str = "some/test_file.txt";

/// What that file holds.
pub const CHECK_FILE_CONTENT: [u8; 6] = [0, 1, 2, 3, 4, 5];

/// The file that is written and deleted again and again when an image is created.
pub const REPEATED_FILE_PATH: &'static str = "some/repeat.txt";

/// How often that happens: enough to fill the disk if neither journal nor file data was reclaimed.
pub const REPEATS: u64 = 2000;

/// The key that encrypted directories of an image are wrapped with.
pub const WRAPPING_KEY_ID: u128 = 2;

/// The first version whose images have an unencrypted volume.
pub const SECOND_VOLUME_VERSION_MAJOR: u32 = 38;

/// The name of the image for a version.
pub open spec fn image_filename_of(version: Version) -> Seq<char> {
    "fxfs_golden."@ + decimal_text(version.major as nat) + "."@ + decimal_text(version.minor as nat)
        + ".img.zstd"@
}

/// Generates the filename where we expect to find a golden image for the current version of the
/// filesystem.
pub fn latest_image_filename(latest: &Version) -> (name: String)
    ensures
        name@ == image_filename_of(*latest),
{
    let mut name = "fxfs_golden.".to_owned();
    name.append(decimal(latest.major as u64).as_str());
    name.append(".");
    name.append(decimal(latest.minor as u64).as_str());
    name.append(".img.zstd");
    name
}

/// The error of `serde_json`.
#[verifier::external_type_specification]
#[verifier::external_body]
pub struct ExJsonError(serde_json::Error);

/// The list of strings that `serde_json` reads from a text; none if the text does not hold one.
pub uninterp spec fn json_strings(text: Seq<char>) -> Option<Seq<Seq<char>>>;

/// Reads a list of strings with `serde_json::from_str`.
///
/// What is read, and whether it can be read, depends on the text alone.
#[verifier::external_body]
fn parse_strings(text: &str) -> (list: Result<Vec<String>, serde_json::Error>)
    ensures
        match list {
            Ok(list) => json_strings(text@) == Some(texts(list@)),
            Err(_) => json_strings(text@) is None,
        },
{
    serde_json::from_str(text)
}

/// Why golden images cannot be checked, or what is wrong with one.
#[derive(Clone, Copy, Debug, PartialEq, Eq, Structural)]
pub enum GoldenError {
    /// The manifest is no list of file names.
    Manifest,
    /// The image cannot be decompressed.
    Image,
    /// There is no image for the latest version.
    MissingLatest,
    /// A file does not hold what it should.
    FileContent,
    /// A verified file does not hold what it should.
    VerityContent,
    /// A deleted file is still there.
    FoundDeleted,
    /// A file in an encrypted directory does not hold what it should.
    FscryptContent,
    /// A file that was added does not hold what it should.
    NewFileContent,
}

/// `files` are in order, and they are those of `manifest`.
pub open spec fn is_sorted_form(files: Seq<Seq<char>>, manifest: Seq<Seq<char>>) -> bool {
    is_sorted_texts(files) && files.to_multiset() == manifest.to_multiset()
}

/// Returns the images to check, in order, given those that the manifest names: there must be one for the
/// latest version.
pub fn images_to_check(files: Vec<String>, latest: &Version) -> (images: Result<
    Vec<String>,
    GoldenError,
>)
    ensures
        match images {
            Ok(images) => {
                &&& texts(files@).contains(image_filename_of(*latest))
                &&& is_sorted_form(texts(images@), texts(files@))
            },
            Err(error) => {
                &&& error == GoldenError::MissingLatest
                &&& !texts(files@).contains(image_filename_of(*latest))
            },
        },
{
    let latest_name = latest_image_filename(latest);
    let len: usize = files.len();
    let mut i: usize = 0;
    let mut found = false;
    while i < len && !found
        invariant
            i <= len,
            len == files@.len(),
            latest_name@ == image_filename_of(*latest),
            found ==> texts(files@).contains(latest_name@),
            !found ==> forall|j: int| 0 <= j < i ==> (#[trigger] files@[j])@ != latest_name@,
        decreases len - i,
    {
        if same_text(files[i].as_str(), latest_name.as_str()) {
            assert(texts(files@)[i as int] == latest_name@);
            found = true;
        }
        i += 1;
    }
    if !found {
        proof {
            assert forall|j: int| 0 <= j < texts(files@).len() implies texts(files@)[j]
                != latest_name@ by {
                assert(texts(files@)[j] == files@[j]@);
            }
        }
        return Err(GoldenError::MissingLatest);
    }
    Ok(sort_texts(files))
}

/// Returns the images to check, in order, given the text of the manifest.
pub fn check_images(manifest: &str, latest: &Version) -> (images: Result<Vec<String>, GoldenError>)
    ensures
        match json_strings(manifest@) {
            None => images == Result::<Vec<String>, GoldenError>::Err(GoldenError::Manifest),
            Some(files) => match images {
                Ok(images) => {
                    &&& files.contains(image_filename_of(*latest))
                    &&& is_sorted_form(texts(images@), files)
                },
                Err(error) => {
                    &&& error == GoldenError::MissingLatest
                    &&& !files.contains(image_filename_of(*latest))
                },
            },
        },
{
    match parse_strings(manifest) {
        Ok(files) => images_to_check(files, latest),
        Err(_) => Err(GoldenError::Manifest),
    }
}

/// The name ends in ".zstd".
pub open spec fn is_compressed(name: Seq<char>) -> bool {
    name.len() >= 5 && name.skip(name.len() - 5) == ".zstd"@
}

/// The lines that list the compressed ones among `names`.
pub open spec fn image_lines(names: Seq<Seq<char>>) -> Seq<char>
    decreases names.len(),
{
    if names.len() == 0 {
        Seq::empty()
    } else {
        image_lines(names.drop_last()) + (if is_compressed(names.last()) {
            "  \""@ + names.last() + "\",\n"@
        } else {
            Seq::empty()
        })
    }
}

fn is_compressed_name(name: &str) -> (compressed: bool)
    ensures
        compressed == is_compressed(name@),
{
    proof {
        reveal_strlit(".zstd");
    }
    let len: usize = name.unicode_len();
    if len < 5 {
        return false;
    }
    assert(name@.subrange(len - 5, len as int) =~= name@.skip(len - 5));
    same_text(name.substring_char(len - 5, len), ".zstd")
}

/// Returns the list of images for the build, given the names of the files beside the images.
pub fn image_list(names: Vec<String>) -> (result: (String, Vec<String>))
    ensures
        is_sorted_form(texts(result.1@), texts(names@)),
        result.0@ == "fxfs_golden_images = [\n"@ + image_lines(texts(result.1@)) + "]\n"@,
{
    let names = sort_texts(names);
    let mut text = "fxfs_golden_images = [\n".to_owned();
    let len: usize = names.len();
    let mut i: usize = 0;
    assert(texts(names@).take(0) =~= Seq::empty());
    assert(text@ =~= "fxfs_golden_images = [\n"@ + image_lines(texts(names@).take(0)));
    while i < len
        invariant
            i <= len,
            len == names@.len(),
            text@ == "fxfs_golden_images = [\n"@ + image_lines(texts(names@).take(i as int)),
        decreases len - i,
    {
        let ghost before = text@;
        let ghost taken = texts(names@).take(i + 1);
        proof {
            assert(taken.drop_last() =~= texts(names@).take(i as int));
            assert(taken.last() == names@[i as int]@);
        }
        if is_compressed_name(names[i].as_str()) {
            text.append("  \"");
            text.append(names[i].as_str());
            text.append("\",\n");
        }
        assert(text@ =~= "fxfs_golden_images = [\n"@ + image_lines(taken));
        i += 1;
    }
    assert(texts(names@).take(len as int) =~= texts(names@));
    text.append("]\n");
    (text, names)
}

/// Returns what stands above the list of images for the build, which was made in `year`, at `time`.
pub fn image_list_header(year: &str, time: &str) -> (header: String)
    ensures
        header@ == "# Copyright "@ + year@ + " The Fuchsia Authors. All rights reserved.\n"@
            + "# Use of this source code is governed by a BSD-style license that can be\n"@
            + "# found in the LICENSE file.\n"@
            + "# Auto-generated by `fx fxfs create_golden` on "@ + time@ + "\n"@,
{
    let mut header = "# Copyright ".to_owned();
    header.append(year);
    header.append(" The Fuchsia Authors. All rights reserved.\n");
    header.append("# Use of this source code is governed by a BSD-style license that can be\n");
    header.append("# found in the LICENSE file.\n");
    header.append("# Auto-generated by `fx fxfs create_golden` on ");
    header.append(time);
    header.append("\n");
    header
}

/// Returns whether images of a version have an unencrypted volume beside the encrypted one.
pub fn has_second_volume(version: &Version) -> (has: bool)
    ensures
        has == !version.before(Version { major: SECOND_VOLUME_VERSION_MAJOR, minor: 0 }),
{
    !version.is_before(&Version { major: SECOND_VOLUME_VERSION_MAJOR, minor: 0 })
}

/// Returns whether a volume of an image of a version has a file in an encrypted directory.
pub fn has_fscrypt_file(version: &Version, encrypted: bool) -> (has: bool)
    ensures
        has == (version.major >= FSCRYPT_VERSION_START && encrypted),
{
    version.major >= FSCRYPT_VERSION_START && encrypted
}

/// Something that is done to a volume of an image that is created.
#[derive(Clone, Copy, Debug)]
pub enum Activity {
    Mkdir { path: &'static str },
    SetProjectLimit { project_id: u64, bytes: u64, nodes: u64 },
    SetProjectForNode { path: &'static str, project_id: u64 },
    /// Writes a file that holds what is expected.
    Put { path: &'static str },
    Unlink { path: &'static str },
    EnableVerity { path: &'static str },
    SetExtendedAttribute { path: &'static str, name: &'static str, value: &'static str },
    EnableFscrypt { path: &'static str, wrapping_key_id: u128 },
    EnableCasefold { path: &'static str },
    /// Compacts the journal, so that there are some persistent files.
    Compact,
}

/// What is done to every volume: the project gets a limit and applies to all that is in the directory; of
/// the files, one is deleted again and one is verified.
pub open spec fn common_activities() -> Seq<Activity> {
    seq![
        Activity::Mkdir { path: "some" },
        Activity::SetProjectLimit { project_id: PROJECT_ID, bytes: 102_400, nodes: 1024 },
        Activity::SetProjectForNode { path: "some", project_id: PROJECT_ID },
        Activity::Put { path: "some/file.txt" },
        Activity::Put { path: "some/deleted.txt" },
        Activity::Compact,
        Activity::Unlink { path: "some/deleted.txt" },
        Activity::Put { path: "some/fsverity.txt" },
        Activity::EnableVerity { path: "some/fsverity.txt" },
        Activity::Compact,
        Activity::SetExtendedAttribute {
            path: "some",
            name: "security.selinux",
            value: "test value",
        },
        Activity::SetExtendedAttribute {
            path: "some/file.txt",
            name: "user.hash",
            value: "different value",
        },
    ]
}

/// What is done to an encrypted volume besides: it gets a file with a unicode name in a directory that is
/// encrypted and casefolded.
pub open spec fn fscrypt_activities() -> Seq<Activity> {
    seq![
        Activity::Mkdir { path: "/fscrypt" },
        Activity::EnableFscrypt { path: "/fscrypt", wrapping_key_id: WRAPPING_KEY_ID },
        Activity::EnableCasefold { path: "/fscrypt" },
        Activity::Put { path: "/fscrypt/Straße.txt" },
    ]
}

/// Returns what is done to a volume of an image that is created.
pub fn activity_in_volume(encrypted: bool) -> (activities: Vec<Activity>)
    ensures
        activities@ == (if encrypted {
            common_activities() + fscrypt_activities()
        } else {
            common_activities()
        }),
{
    let mut activities: Vec<Activity> = vec![
        Activity::Mkdir { path: "some" },
        Activity::SetProjectLimit { project_id: PROJECT_ID, bytes: 102_400, nodes: 1024 },
        Activity::SetProjectForNode { path: "some", project_id: PROJECT_ID },
        Activity::Put { path: "some/file.txt" },
        Activity::Put { path: "some/deleted.txt" },
        Activity::Compact,
        Activity::Unlink { path: "some/deleted.txt" },
        Activity::Put { path: "some/fsverity.txt" },
        Activity::EnableVerity { path: "some/fsverity.txt" },
        Activity::Compact,
        Activity::SetExtendedAttribute {
            path: "some",
            name: "security.selinux",
            value: "test value",
        },
        Activity::SetExtendedAttribute {
            path: "some/file.txt",
            name: "user.hash",
            value: "different value",
        },
    ];
    assert(activities@ =~= common_activities());
    if encrypted {
        activities.push(Activity::Mkdir { path: "/fscrypt" });
        activities.push(Activity::EnableFscrypt { path: "/fscrypt", wrapping_key_id: WRAPPING_KEY_ID });
        activities.push(Activity::EnableCasefold { path: "/fscrypt" });
        activities.push(Activity::Put { path: "/fscrypt/Straße.txt" });
        assert(activities@ =~= common_activities() + fscrypt_activities());
    }
    activities
}

/// What was read from a volume of an image.
#[derive(Debug)]
pub struct VolumeContent {
    /// some/file.txt
    pub file: Vec<u8>,
    /// some/fsverity.txt
    pub verity: Vec<u8>,
    /// Whether some/deleted.txt could be read.
    pub deleted: bool,
    /// The file in the encrypted directory, if the image has one.
    pub fscrypt: Option<Vec<u8>>,
}

/// What the files of an image hold: "content.".
pub open spec fn expected_content() -> Seq<u8> {
    seq![0x63u8, 0x6f, 0x6e, 0x74, 0x65, 0x6e, 0x74, 0x2e]
}

/// What the file that is added to an image holds.
pub open spec fn added_content() -> Seq<u8> {
    seq![0u8, 1, 2, 3, 4, 5]
}

fn same_bytes(a: &Vec<u8>, b: &[u8]) -> (same: bool)
    ensures
        same == (a@ == b@),
{
    let len: usize = a.len();
    if len != b.len() {
        return false;
    }
    let mut i: usize = 0;
    while i < len
        invariant
            i <= len,
            len == a@.len(),
            len == b@.len(),
            forall|j: int| 0 <= j < i ==> a@[j] == b@[j],
        decreases len - i,
    {
        if a[i] != b[i] {
            return false;
        }
        i += 1;
    }
    assert(a@ =~= b@);
    true
}

/// Checks what was read from a volume of an image.
pub fn check_volume(content: &VolumeContent) -> (check: Result<(), GoldenError>)
    ensures
        check == (if content.file@ != expected_content() {
            Err::<(), GoldenError>(GoldenError::FileContent)
        } else if content.verity@ != expected_content() {
            Err(GoldenError::VerityContent)
        } else if content.deleted {
            Err(GoldenError::FoundDeleted)
        } else if content.fscrypt is Some && content.fscrypt->0@ != expected_content() {
            Err(GoldenError::FscryptContent)
        } else {
            Ok(())
        }),
{
    let expected = EXPECTED_FILE_CONTENT.as_slice();
    assert(expected@ =~= expected_content());
    if !same_bytes(&content.file, expected) {
        return Err(GoldenError::FileContent);
    }
    if !same_bytes(&content.verity, expected) {
        return Err(GoldenError::VerityContent);
    }
    if content.deleted {
        return Err(GoldenError::FoundDeleted);
    }
    if let Some(fscrypt) = &content.fscrypt {
        if !same_bytes(fscrypt, expected) {
            return Err(GoldenError::FscryptContent);
        }
    }
    Ok(())
}

/// Checks what was read of the file that was added to an image.
pub fn check_added(content: &Vec<u8>) -> (check: Result<(), GoldenError>)
    ensures
        check == (if content@ != added_content() {
            Err::<(), GoldenError>(GoldenError::NewFileContent)
        } else {
            Ok(())
        }),
{
    let expected = CHECK_FILE_CONTENT.as_slice();
    assert(expected@ =~= added_content());
    if !same_bytes(content, expected) {
        return Err(GoldenError::NewFileContent);
    }
    Ok(())
}

/// How many bytes of a device are saved: whole blocks, up to the size of an image or beyond it.
pub open spec fn saved_len(block_size: int) -> int {
    spec_round_up(IMAGE_BLOCKS * IMAGE_BLOCK_SIZE, block_size)
}

/// Returns how many blocks of a device are saved.
pub fn saved_blocks(block_size: u32) -> (blocks: u64)
    requires
        block_size > 0,
    ensures
        blocks * block_size == saved_len(block_size as int),
{
    let size: u64 = IMAGE_BLOCKS * IMAGE_BLOCK_SIZE as u64;
    proof {
        lemma_round_up(size as int, block_size as int);
    }
    match round_up(size, block_size as u64) {
        Some(rounded) => {
            proof {
                vstd::arithmetic::div_mod::lemma_fundamental_div_mod(
                    rounded as int,
                    block_size as int,
                );
                assert(rounded / block_size as u64 * block_size == block_size * (rounded
                    / block_size as u64)) by (nonlinear_arith);
            }
            rounded / block_size as u64
        },
        None => 0,
    }
}

/// What `zstd` decompresses some data to; none if the data does not consist of `zstd` frames.
pub uninterp spec fn unzstd(data: Seq<u8>) -> Option<Seq<u8>>;

/// Decompresses data with `zstd::decode_all`.
///
/// What comes out, and whether the data can be decompressed, depends on the data alone.
#[verifier::external_body]
fn decompress(data: &Vec<u8>) -> (image: Option<Vec<u8>>)
    ensures
        match image {
            Some(image) => unzstd(data@) == Some(image@),
            None => unzstd(data@) is None,
        },
{
    zstd::decode_all(data.as_slice()).ok()
}

/// What `zstd` compresses some data to at a level; none if it fails.
pub uninterp spec fn zstd_of(data: Seq<u8>, level: i32) -> Option<Seq<u8>>;

/// Compresses data with `zstd::encode_all`.
///
/// What comes out depends on the data and the level alone, and decompressing it gives back the data.
#[verifier::external_body]
fn compress(data: &Vec<u8>, level: i32) -> (compressed: Option<Vec<u8>>)
    ensures
        match compressed {
            Some(compressed) => zstd_of(data@, level) == Some(compressed@) && unzstd(compressed@)
                == Some(data@),
            None => zstd_of(data@, level) is None,
        },
{
    zstd::encode_all(data.as_slice(), level).ok()
}

/// The level that images are compressed at.
pub const COMPRESSION_LEVEL: i32 = 6;

/// Decompresses an image into a device in memory.
pub fn load_device(data: &Vec<u8>) -> (device: Result<FakeDevice, GoldenError>)
    ensures
        match device {
            Ok(device) => {
                &&& device.wf()
                &&& unzstd(data@) == Some(device@.data)
                &&& device@ == (DeviceView {
                    block_size: IMAGE_BLOCK_SIZE as int,
                    data: device@.data,
                    blocks_written: Seq::empty(),
                    closed: false,
                    read_only: false,
                    poisoned: false,
                })
            },
            Err(error) => unzstd(data@) is None && error == GoldenError::Image,
        },
{
    match decompress(data) {
        Some(image) => Ok(FakeDevice::from_image(image, IMAGE_BLOCK_SIZE)),
        None => Err(GoldenError::Image),
    }
}

/// Why a device cannot be saved.
#[derive(Debug)]
pub enum SaveError<E> {
    /// The device cannot be read.
    Device(DeviceError<E>),
    /// The image cannot be compressed.
    Compression,
}

/// Compresses what is to be saved of a device into an image.  The device is read-only afterwards.
pub fn save_device<E, F: Fn(Op) -> Result<(), E> + Copy>(
    device: &mut FakeDevice,
    callback: F,
) -> (image: Result<Vec<u8>, SaveError<E>>)
    requires
        old(device).wf(),
        callback.requires((Op::Read,)),
        saved_len(old(device)@.block_size) <= old(device)@.data.len(),
    ensures
        final(device)@ == (DeviceView { closed: false, read_only: true, ..old(device)@ }),
        ({
            let saved = old(device)@.data.take(saved_len(old(device)@.block_size));
            match image {
                Ok(image) => {
                    &&& zstd_of(saved, COMPRESSION_LEVEL) == Some(image@)
                    &&& unzstd(image@) == Some(saved)
                },
                Err(SaveError::Compression) => zstd_of(saved, COMPRESSION_LEVEL) is None,
                Err(SaveError::Device(DeviceError::Op(error))) => callback.ensures(
                    (Op::Read,),
                    Err(error),
                ),
                Err(SaveError::Device(_)) => false,
            }
        }),
{
    match read_image(device, callback) {
        Ok(image) => match compress(&image, COMPRESSION_LEVEL) {
            Some(compressed) => Ok(compressed),
            None => Err(SaveError::Compression),
        },
        Err(error) => Err(SaveError::Device(error)),
    }
}

/// A device that is loaded from an image holds what was saved of the device that the image was made from.
pub proof fn lemma_load_gives_back_what_was_saved(
    saved: DeviceView,
    image: Seq<u8>,
    loaded: DeviceView,
)
    ensures
        unzstd(image) == Some(saved.data.take(saved_len(saved.block_size))) && unzstd(image)
            == Some(loaded.data) ==> {
            &&& loaded.data == saved.data.take(saved_len(saved.block_size))
            &&& saved.block_size == IMAGE_BLOCK_SIZE && saved.data.len() == IMAGE_BLOCKS
                * IMAGE_BLOCK_SIZE ==> loaded.data == saved.data
        },
{
    if saved.block_size == IMAGE_BLOCK_SIZE {
        lemma_round_up(IMAGE_BLOCKS * IMAGE_BLOCK_SIZE, saved.block_size);
        assert(saved_len(saved.block_size) == IMAGE_BLOCKS * IMAGE_BLOCK_SIZE);
        assert(saved.data.len() == IMAGE_BLOCKS * IMAGE_BLOCK_SIZE ==> saved.data.take(
            saved_len(saved.block_size),
        ) =~= saved.data);
    }
}

/// Reads what is to be saved of a device, block by block.  The device is read-only afterwards.
pub fn read_image<E, F: Fn(Op) -> Result<(), E> + Copy>(
    device: &mut FakeDevice,
    callback: F,
) -> (image: Result<Vec<u8>, DeviceError<E>>)
    requires
        old(device).wf(),
        callback.requires((Op::Read,)),
        saved_len(old(device)@.block_size) <= old(device)@.data.len(),
    ensures
        final(device)@ == (DeviceView { closed: false, read_only: true, ..old(device)@ }),
        match image {
            Ok(image) => image@ == old(device)@.data.take(saved_len(old(device)@.block_size)),
            Err(DeviceError::Op(error)) => callback.ensures((Op::Read,), Err(error)),
            Err(_) => false,
        },
{
    device.reopen(true);
    let block_size: u32 = device.block_size();
    let blocks: u64 = saved_blocks(block_size);
    let mut image: Vec<u8> = Vec::new();
    let mut block: u64 = 0;
    let mut offset: u64 = 0;
    assert(image@ =~= device@.data.take(0));
    while block < blocks
        invariant
            block <= blocks,
            device.wf(),
            !device@.closed,
            callback.requires((Op::Read,)),
            block_size == device@.block_size,
            blocks * block_size <= device@.data.len(),
            offset == block * block_size,
            image@ == device@.data.take(offset as int),
            device@ == (DeviceView {
                closed: false,
                read_only: true,
                ..old(device)@
            }),
        decreases blocks - block,
    {
        assert(block * block_size + block_size <= blocks * block_size) by (nonlinear_arith)
            requires
                block < blocks,
        ;
        assert((block + 1) * block_size == block * block_size + block_size) by (nonlinear_arith);
        proof {
            vstd::arithmetic::div_mod::lemma_mod_multiples_basic(block as int, block_size as int);
        }
        let bytes = match device.read(offset, block_size as usize, callback) {
            Ok(bytes) => bytes,
            Err(error) => {
                return Err(error);
            },
        };
        let mut bytes = bytes;
        image.append(&mut bytes);
        offset = offset + block_size as u64;
        block = block + 1;
        assert(image@ =~= device@.data.take(offset as int));
    }
    Ok(image)
}

/// An image is named after its version: by its name the version can be told, and that it is compressed.
pub proof fn lemma_images_are_named_after_their_version(a: Version, b: Version)
    ensures
        is_compressed(image_filename_of(a)),
        image_filename_of(a).take(12) == "fxfs_golden."@,
        image_filename_of(a) == image_filename_of(b) ==> a == b,
{
    reveal_strlit("fxfs_golden.");
    reveal_strlit(".");
    reveal_strlit(".img.zstd");
    reveal_strlit(".zstd");
    let name = image_filename_of(a);
    assert(name.skip(name.len() - 5) =~= ".zstd"@);
    assert(name.take(12) =~= "fxfs_golden."@);
    if image_filename_of(a) == image_filename_of(b) {
        lemma_numbers_can_be_told(a, b);
    }
}

proof fn lemma_numbers_can_be_told(a: Version, b: Version)
    requires
        image_filename_of(a) == image_filename_of(b),
    ensures
        a == b,
{
    reveal_strlit("fxfs_golden.");
    reveal_strlit(".");
    reveal_strlit(".img.zstd");
    let name = image_filename_of(a);
    let other = image_filename_of(b);
    let major = decimal_text(a.major as nat);
    let other_major = decimal_text(b.major as nat);
    let len = major.len() as int;
    let other_len = other_major.len() as int;
    let minor = decimal_text(a.minor as nat);
    let other_minor = decimal_text(b.minor as nat);
    lemma_decimal_can_be_read_back(a.major as nat);
    lemma_decimal_can_be_read_back(b.major as nat);
    lemma_decimal_can_be_read_back(a.minor as nat);
    lemma_decimal_can_be_read_back(b.minor as nat);
    assert(name[12 + len] == '.');
    assert(other[12 + other_len] == '.');
    if len < other_len {
        assert(other[12 + len] == other_major[len]);
    } else if other_len < len {
        assert(name[12 + other_len] == major[other_len]);
    }
    assert(len == other_len);
    assert(name.subrange(12, 12 + len) =~= major);
    assert(other.subrange(12, 12 + len) =~= other_major);
    assert(name.len() == 12 + len + 1 + minor.len() + 9);
    assert(other.len() == 12 + other_len + 1 + other_minor.len() + 9);
    assert(minor.len() == other_minor.len());
    let start = 13 + len;
    assert(name.subrange(start, start + minor.len()) =~= minor);
    assert(other.subrange(start, start + minor.len()) =~= other_minor);
}

/// A name is that of a compressed file if and only if it ends in ".zstd".
pub proof fn lemma_compressed_names_end_alike(front: Seq<char>, name: Seq<char>)
    ensures
        is_compressed(front + ".zstd"@),
        is_compressed(name) ==> exists|front: Seq<char>| name == #[trigger] (front + ".zstd"@),
{
    reveal_strlit(".zstd");
    let whole = front + ".zstd"@;
    assert(whole.skip(whole.len() - 5) =~= ".zstd"@);
    if is_compressed(name) {
        assert(name =~= name.take(name.len() - 5) + ".zstd"@);
    }
}

/// The list of images has a line for each compressed file, in the order of the files, which holds the name in quotes;
/// other files do not show.
pub proof fn lemma_compressed_files_are_listed(names: Seq<Seq<char>>, name: Seq<char>)
    ensures
        image_lines(Seq::empty()) == Seq::<char>::empty(),
        is_compressed(name) ==> image_lines(names.push(name)) == image_lines(names) + seq![' ', ' ', '"']
            + name + seq!['"', ',', '\n'],
        !is_compressed(name) ==> image_lines(names.push(name)) == image_lines(names),
{
    reveal_strlit("  \"");
    reveal_strlit("\",\n");
    assert(names.push(name).drop_last() =~= names);
    assert(names.push(name).last() == name);
    assert("  \""@ =~= seq![' ', ' ', '"']);
    assert("\",\n"@ =~= seq!['"', ',', '\n']);
    if is_compressed(name) {
        assert(image_lines(names.push(name)) =~= image_lines(names) + seq![' ', ' ', '"'] + name + seq![
            '"',
            ',',
            '\n',
        ]);
    } else {
        assert(image_lines(names.push(name)) =~= image_lines(names));
    }
}

/// The images to check are those of the manifest, each as often as it stands there, in order.
pub proof fn lemma_sorted_form_loses_nothing(files: Seq<Seq<char>>, manifest: Seq<Seq<char>>, name: Seq<char>)
    requires
        is_sorted_form(files, manifest),
    ensures
        files.contains(name) <==> manifest.contains(name),
        files.len() == manifest.len(),
        forall|i: int, j: int| 0 <= i < j < files.len() ==> !text_lt(#[trigger] files[j], #[trigger] files[i]),
{
    broadcast use vstd::seq_lib::group_to_multiset_ensures;

    assert(files.to_multiset().count(name) == manifest.to_multiset().count(name));
    assert(files.to_multiset().len() == manifest.to_multiset().len());
}

/// What is saved of a device are whole blocks that hold an image of 8 MiB, and less than a block more.
pub proof fn lemma_saved_blocks_hold_an_image(block_size: int)
    requires
        block_size > 0,
    ensures
        saved_len(block_size) % block_size == 0,
        8_388_608 <= saved_len(block_size) < 8_388_608 + block_size,
        8_388_608int % block_size == 0 ==> saved_len(block_size) == 8_388_608,
{
    lemma_round_up(IMAGE_BLOCKS * IMAGE_BLOCK_SIZE, block_size);
}

/// The files of an image hold the text "content.", and the file that is added to it holds the numbers from 0 to 5.
pub proof fn lemma_files_hold_what_is_expected(index: int)
    ensures
        expected_content().len() == "content."@.len(),
        0 <= index < expected_content().len() ==> expected_content()[index] as int == "content."@[index] as int,
        added_content().len() == 6,
        0 <= index < added_content().len() ==> added_content()[index] == index,
{
    reveal_strlit("content.");
}

/// What is done to a volume is done to what is there: a file that is deleted or verified was written before, and
/// attributes and projects are set on what was made before.
pub proof fn lemma_activities_build_on_each_other(index: int)
    requires
        0 <= index < common_activities().len(),
    ensures
        ({
            let done = common_activities();
            &&& done[index] matches Activity::Unlink { path } ==> exists|earlier: int|
                0 <= earlier < index && #[trigger] done[earlier] == (Activity::Put { path })
            &&& done[index] matches Activity::EnableVerity { path } ==> exists|earlier: int|
                0 <= earlier < index && #[trigger] done[earlier] == (Activity::Put { path })
            &&& done[index] matches Activity::SetExtendedAttribute { path, .. } ==> exists|earlier: int|
                0 <= earlier < index && (#[trigger] done[earlier] == (Activity::Put { path })
                    || done[earlier] == (Activity::Mkdir { path }))
            &&& done[index] matches Activity::SetProjectForNode { path, project_id } ==> {
                &&& exists|earlier: int|
                    0 <= earlier < index && #[trigger] done[earlier] == (Activity::Mkdir { path })
                &&& exists|earlier: int|
                    0 <= earlier < index && (#[trigger] done[earlier] matches Activity::SetProjectLimit {
                        project_id: limited,
                        ..
                    } && limited == project_id)
            }
        }),
{
    let done = common_activities();
    assert(done[0] == (Activity::Mkdir { path: "some" }));
    assert(done[1] is SetProjectLimit);
    assert(done[3] == (Activity::Put { path: "some/file.txt" }));
    assert(done[4] == (Activity::Put { path: "some/deleted.txt" }));
    assert(done[7] == (Activity::Put { path: "some/fsverity.txt" }));
}

/// The encrypted directory is made first and all else is done to it, or to a file in it: it is encrypted before it is
/// casefolded, and both before anything is put in it.
pub proof fn lemma_encrypted_directory_is_made_first()
    ensures
        ({
            let done = fscrypt_activities();
            &&& done.len() == 4
            &&& done[0] matches Activity::Mkdir { path } && {
                &&& done[1] == (Activity::EnableFscrypt { path, wrapping_key_id: 2 })
                &&& done[2] == (Activity::EnableCasefold { path })
                &&& done[3] is Put
            }
        }),
{
}

} // verus!
