use fxfs::format::{
    classify, detect_disk_format, detect_disk_format_res, detection_size, DetectError, DiskFormat,
    FormatConstants,
};

fn constants() -> FormatConstants {
    FormatConstants {
        header_size: 4096,
        fvm_magic: b"FVM PART".to_vec(),
        zxcrypt_magic: b"zxcryptmagicbyte".to_vec(),
        block_verity_magic: b"block-verity-v1\0".to_vec(),
        gpt_magic: b"EFI PARTgptmagic".to_vec(),
        minfs_magic: b"!MinFS!\0\x04\xd3".to_vec(),
        blobfs_magic: b"!blob!\0\xac\xce".to_vec(),
        vb_meta_magic: b"AVB0".to_vec(),
        f2fs_magic: b"\x10\x20\xf5\xf2".to_vec(),
        fxfs_magic: b"FxfsSupr".to_vec(),
    }
}

// Plays the part of a device that holds `content`, padded with zeroes.
fn get_detected_disk_format(
    content: &[u8],
    block_count: u64,
    block_size: u32,
) -> Result<DiskFormat, DetectError> {
    let constants = constants();
    let data = match detection_size(block_size, block_count, constants.header_size)? {
        Some(size) => {
            let mut data = content.to_vec();
            data.resize(size as usize, 0);
            Some(data)
        }
        None => None,
    };
    detect_disk_format_res(block_size, block_count, &data, &constants)
}

/// Confirm that we map to/from string consistently.
#[test]
fn to_from_str_test() {
    for fmt in vec![
        DiskFormat::Unknown,
        DiskFormat::Gpt,
        DiskFormat::Mbr,
        DiskFormat::Minfs,
        DiskFormat::Fat,
        DiskFormat::Blobfs,
        DiskFormat::Fvm,
        DiskFormat::Zxcrypt,
        DiskFormat::BlockVerity,
        DiskFormat::VbMeta,
        DiskFormat::BootPart,
        DiskFormat::Fxfs,
        DiskFormat::F2fs,
        DiskFormat::NandBroker,
    ] {
        assert_eq!(fmt, fmt.as_str().into());
    }
}

#[test]
fn detect_disk_format_too_small() {
    assert_eq!(get_detected_disk_format(&Vec::new(), 1, 512).unwrap(), DiskFormat::Unknown);
}

#[test]
fn detect_format_fvm() {
    let mut data = vec![0; 4096];
    let magic = constants().fvm_magic;
    data[..magic.len()].copy_from_slice(&magic);
    assert_eq!(get_detected_disk_format(&data, 1000, 512).unwrap(), DiskFormat::Fvm);
}

#[test]
fn detect_format_zxcrypt() {
    let mut data = vec![0; 4096];
    let magic = constants().zxcrypt_magic;
    data[0..magic.len()].copy_from_slice(&magic);
    assert_eq!(get_detected_disk_format(&data, 1000, 512).unwrap(), DiskFormat::Zxcrypt);
}

#[test]
fn detect_format_block_verity() {
    let mut data = vec![0; 4096];
    let magic = constants().block_verity_magic;
    data[0..magic.len()].copy_from_slice(&magic);
    assert_eq!(get_detected_disk_format(&data, 1000, 512).unwrap(), DiskFormat::BlockVerity);
}

#[test]
fn detect_format_gpt() {
    let mut data = vec![0; 4096];
    data[512..512 + 16].copy_from_slice(&constants().gpt_magic);
    assert_eq!(get_detected_disk_format(&data, 1000, 512).unwrap(), DiskFormat::Gpt);
}

#[test]
fn detect_format_minfs() {
    let mut data = vec![0; 4096];
    let magic = constants().minfs_magic;
    data[0..magic.len()].copy_from_slice(&magic);
    assert_eq!(get_detected_disk_format(&data, 1000, 512).unwrap(), DiskFormat::Minfs);
}

#[test]
fn detect_format_minfs_large_block_device() {
    let mut data = vec![0; 32768];
    let magic = constants().minfs_magic;
    data[0..magic.len()].copy_from_slice(&magic);
    assert_eq!(get_detected_disk_format(&data, 1250000, 16384).unwrap(), DiskFormat::Minfs);
}

#[test]
fn detect_format_blobfs() {
    let mut data = vec![0; 4096];
    let magic = constants().blobfs_magic;
    data[0..magic.len()].copy_from_slice(&magic);
    assert_eq!(get_detected_disk_format(&data, 1000, 512).unwrap(), DiskFormat::Blobfs);
}

#[test]
fn detect_format_vb_meta() {
    let mut data = vec![0; 4096];
    let magic = constants().vb_meta_magic;
    data[0..magic.len()].copy_from_slice(&magic);
    assert_eq!(get_detected_disk_format(&data, 1000, 512).unwrap(), DiskFormat::VbMeta);
}

#[test]
fn detect_format_mbr() {
    let mut data = vec![0; 4096];
    data[510] = 0x55;
    data[511] = 0xAA;
    data[38] = 0x30;
    data[66] = 0x30;
    assert_eq!(get_detected_disk_format(&data, 1000, 512).unwrap(), DiskFormat::Mbr);
}

#[test]
fn detect_format_fat_1() {
    let mut data = vec![0; 4096];
    data[510] = 0x55;
    data[511] = 0xAA;
    data[38] = 0x29;
    data[66] = 0x30;
    assert_eq!(get_detected_disk_format(&data, 1000, 512).unwrap(), DiskFormat::Fat);
}

#[test]
fn detect_format_fat_2() {
    let mut data = vec![0; 4096];
    data[510] = 0x55;
    data[511] = 0xAA;
    data[38] = 0x30;
    data[66] = 0x29;
    assert_eq!(get_detected_disk_format(&data, 1000, 512).unwrap(), DiskFormat::Fat);
}

#[test]
fn detect_format_f2fs() {
    let mut data = vec![0; 4096];
    let magic = constants().f2fs_magic;
    data[1024..1024 + magic.len()].copy_from_slice(&magic);
    assert_eq!(get_detected_disk_format(&data, 1000, 512).unwrap(), DiskFormat::F2fs);
}

#[test]
fn detect_format_fxfs() {
    let mut data = vec![0; 4096];
    let magic = constants().fxfs_magic;
    data[0..magic.len()].copy_from_slice(&magic);
    assert_eq!(get_detected_disk_format(&data, 1000, 512).unwrap(), DiskFormat::Fxfs);
}

#[test]
fn detect_format_unknown() {
    assert_eq!(
        get_detected_disk_format(&vec![0; 4096], 1000, 512).unwrap(),
        DiskFormat::Unknown
    );
}

#[test]
fn mbr_signature_yields_to_longer_magic() {
    let mut data = vec![0; 4096];
    let magic = constants().fxfs_magic;
    data[0..magic.len()].copy_from_slice(&magic);
    data[510] = 0x55;
    data[511] = 0xAA;
    assert_eq!(classify(&data, 512, &constants()), DiskFormat::Fxfs);
}

#[test]
fn detection_errors() {
    assert_eq!(detection_size(0, 10, 4096), Err(DetectError::ZeroBlockSize));
    assert_eq!(detection_size(0x8000_0000, 10, 4096), Err(DetectError::DoubleBlockSizeOverflow));
    assert_eq!(detection_size(512, u64::MAX, 4096), Err(DetectError::DeviceSizeOverflow));
    assert_eq!(detection_size(512, 8, 4096), Ok(Some(4096)));
    assert_eq!(detection_size(512, 7, 4096), Ok(None));
    assert_eq!(detection_size(16384, 1000, 4096), Ok(Some(32768)));
    assert_eq!(detection_size(3000, 1000, 4096), Ok(Some(6000)));
    assert_eq!(detection_size(1500, 1000, 4096), Ok(Some(4500)));
    assert_eq!(detect_disk_format(Err(DetectError::ZeroBlockSize)), DiskFormat::Unknown);
    assert_eq!(detect_disk_format(Ok(DiskFormat::Gpt)), DiskFormat::Gpt);
}

#[test]
fn names_of_formats() {
    assert_eq!(DiskFormat::Unknown.as_str(), "unknown!");
    assert_eq!(DiskFormat::from("no such format"), DiskFormat::Unknown);
    assert_eq!(DiskFormat::from("block verity"), DiskFormat::BlockVerity);
}
