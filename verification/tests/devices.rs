use fxfs::fake_device::{DeviceError, FakeDevice, Op, DISCARDED, TRIMMED};
use fxfs::golden::{
    activity_in_volume, image_list_header, load_device, read_image, save_device, saved_blocks, GoldenError, SaveError,
    Activity, IMAGE_BLOCKS, IMAGE_BLOCK_SIZE,
};

fn ok(_: Op) -> Result<(), ()> {
    Ok(())
}

#[test]
fn reads_give_back_writes() {
    let mut device = FakeDevice::new(8, 512);
    assert_eq!(device.block_size(), 512);
    assert_eq!(device.block_count(), 8);
    assert_eq!(device.read(0, 512, ok).unwrap(), vec![0; 512]);
    let data: Vec<u8> = (0..1024).map(|i| i as u8).collect();
    device.write(512, &data, ok).unwrap();
    assert_eq!(device.read(512, 1024, ok).unwrap(), data);
    assert_eq!(device.read(0, 512, ok).unwrap(), vec![0; 512]);
    assert_eq!(device.read(1536, 512, ok).unwrap(), vec![0; 512]);
    assert_eq!(device.snapshot().read(512, 1024, ok).unwrap(), data);
}

#[test]
fn closed_and_read_only_devices() {
    let mut device = FakeDevice::from_image(vec![1; 1024], 512);
    assert!(!device.is_read_only());
    device.reopen(true);
    assert!(device.is_read_only());
    assert!(matches!(device.write(0, &vec![0; 512], ok), Err(DeviceError::ReadOnly)));
    assert!(matches!(device.trim(0, 512), Err(DeviceError::ReadOnly)));
    assert_eq!(device.read(0, 512, ok).unwrap(), vec![1; 512]);
    device.close();
    assert!(matches!(device.read(0, 512, ok), Err(DeviceError::Closed)));
    assert!(matches!(device.write(0, &vec![0; 512], ok), Err(DeviceError::Closed)));
    assert!(matches!(device.trim(0, 512), Err(DeviceError::Closed)));
    device.reopen(false);
    device.write(0, &vec![0; 512], ok).unwrap();
}

#[test]
fn callbacks_can_fail() {
    let mut device = FakeDevice::new(8, 512);
    let fail = |op| match op {
        Op::Read => Err("read"),
        Op::Write => Err("write"),
        Op::Flush => Err("flush"),
    };
    assert!(matches!(device.read(0, 512, fail), Err(DeviceError::Op("read"))));
    assert!(matches!(device.write(0, &vec![1; 512], fail), Err(DeviceError::Op("write"))));
    device.write(512, &vec![1; 512], ok).unwrap();
    assert_eq!(device.flush(fail), Err("flush"));
    // What was written before the flush that failed can still be lost.
    assert_eq!(device.discard_since_last_flush(&vec![true]), vec![1]);
    assert_eq!(device.read(0, 512, ok).unwrap(), vec![0; 512]);
}

#[test]
fn trimmed_ranges() {
    let mut device = FakeDevice::new(4, 512);
    assert!(device.supports_trim());
    device.trim(512, 1024).unwrap();
    assert_eq!(device.read(0, 512, ok).unwrap(), vec![0; 512]);
    assert_eq!(device.read(512, 512, ok).unwrap(), vec![TRIMMED; 512]);
    assert_eq!(device.read(1024, 512, ok).unwrap(), vec![0; 512]);
}

#[test]
fn blocks_can_be_lost_until_they_are_flushed() {
    let mut device = FakeDevice::new(4, 512);
    device.write(0, &vec![1; 512], ok).unwrap();
    device.flush(ok).unwrap();
    device.write(512, &vec![2; 1024], ok).unwrap();
    assert_eq!(device.discard_since_last_flush(&vec![false, true]), vec![2]);
    assert_eq!(device.read(0, 512, ok).unwrap(), vec![1; 512]);
    assert_eq!(device.read(512, 512, ok).unwrap(), vec![2; 512]);
    assert_eq!(device.read(1024, 512, ok).unwrap(), vec![DISCARDED; 512]);
    assert_eq!(device.discard_since_last_flush(&vec![]), Vec::<usize>::new());
}

#[test]
fn blocks_are_lost_by_chance() {
    let mut device = FakeDevice::new(64, 512);
    device.write(0, &vec![1; 512 * 32], ok).unwrap();
    device.flush(ok).unwrap();
    device.write(512 * 32, &vec![2; 512 * 32], ok).unwrap();
    let lost = device.discard_random_since_last_flush();
    for block in 0..64usize {
        let expected = if lost.contains(&block) {
            DISCARDED
        } else if block < 32 {
            1
        } else {
            2
        };
        assert_eq!(device.read(512 * block as u64, 512, ok).unwrap(), vec![expected; 512]);
    }
    assert!(lost.iter().all(|block| *block >= 32));
    // Not all of the choices are the same (with a chance of one in some billions).
    assert!(!lost.is_empty() && lost.len() < 32);
}

#[test]
fn poisoned_devices() {
    let mut device = FakeDevice::new(4, 512);
    assert!(!device.is_poisoned());
    device.poison();
    assert!(device.is_poisoned());
}

#[test]
fn devices_are_saved_as_images() {
    let mut device = FakeDevice::new(IMAGE_BLOCKS + 8, IMAGE_BLOCK_SIZE);
    let data: Vec<u8> = (0..2048).map(|i| (i / 7) as u8).collect();
    device.write(1024, &data, ok).unwrap();
    device.close();
    let image = save_device(&mut device, ok).unwrap();
    assert!(device.is_read_only());
    assert!(image.len() < 10_000);
    assert_eq!(image[..4], [0x28, 0xb5, 0x2f, 0xfd]);
    let copy = load_device(&image).unwrap();
    assert!(!copy.is_read_only());
    assert_eq!(copy.block_size(), IMAGE_BLOCK_SIZE);
    assert_eq!(copy.block_count(), IMAGE_BLOCKS);
    assert_eq!(copy.read(1024, 2048, ok).unwrap(), data);
    assert_eq!(copy.read(0, 1024, ok).unwrap(), vec![0; 1024]);
    assert_eq!(read_image(&mut device, ok).unwrap().len(), 8 << 20);
    assert!(matches!(
        save_device(&mut device, |_| Err("broken")),
        Err(SaveError::Device(DeviceError::Op("broken")))
    ));
}

#[test]
fn devices_with_other_blocks_are_saved() {
    assert_eq!(saved_blocks(1024), 8192);
    assert_eq!(saved_blocks(512), 16384);
    assert_eq!(saved_blocks(4096), 2048);
    assert_eq!(saved_blocks(3_000_000), 3);
    let mut device = FakeDevice::new(3, 3_000_000);
    device.write(6_000_000, &vec![7; 3_000_000], ok).unwrap();
    let image = read_image(&mut device, ok).unwrap();
    assert_eq!(image.len(), 9_000_000);
    assert_eq!(image[8_999_999], 7);
    let copy = load_device(&save_device(&mut device, ok).unwrap()).unwrap();
    assert_eq!(copy.block_count(), 8789);
    assert_eq!(copy.read(8192 * 1024, 1024, ok).unwrap(), vec![7; 1024]);
}

#[test]
fn other_data_is_no_image() {
    assert!(matches!(load_device(&vec![1, 2, 3, 4, 5]), Err(GoldenError::Image)));
    let mut device = FakeDevice::new(IMAGE_BLOCKS, IMAGE_BLOCK_SIZE);
    let mut image = save_device(&mut device, ok).unwrap();
    image.pop();
    assert!(load_device(&image).is_err());
}

#[test]
fn the_list_of_images_has_a_header() {
    assert_eq!(
        image_list_header("2025", "2025-01-02 03:04:05 UTC"),
        "# Copyright 2025 The Fuchsia Authors. All rights reserved.\n\
         # Use of this source code is governed by a BSD-style license that can be\n\
         # found in the LICENSE file.\n\
         # Auto-generated by `fx fxfs create_golden` on 2025-01-02 03:04:05 UTC\n"
    );
}

#[test]
fn what_is_done_to_the_volumes_of_an_image() {
    let puts = |encrypted| -> Vec<&str> {
        activity_in_volume(encrypted)
            .iter()
            .filter_map(|activity| match activity {
                Activity::Put { path } => Some(*path),
                _ => None,
            })
            .collect()
    };
    let common = vec!["some/file.txt", "some/deleted.txt", "some/fsverity.txt"];
    assert_eq!(puts(false), common);
    assert_eq!(puts(true), [common, vec!["/fscrypt/Stra\u{df}e.txt"]].concat());
    let activities = activity_in_volume(true);
    assert_eq!((activity_in_volume(false).len(), activities.len()), (12, 16));
    assert!(matches!(activities[0], Activity::Mkdir { path: "some" }));
    assert!(matches!(
        activities[1],
        Activity::SetProjectLimit { project_id: 4, bytes: 102400, nodes: 1024 }
    ));
    assert!(matches!(
        activities[13],
        Activity::EnableFscrypt { path: "/fscrypt", wrapping_key_id: 2 }
    ));
}
