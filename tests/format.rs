use filesystem::device::{Device, FsError};
use filesystem::file_core::FileCore;
use filesystem::inode::Inode;
use filesystem::superblock::Superblock;

fn used(device: &Device, p: u32) -> bool {
    let mut buf = vec![0u8; 1024];
    device.read_block((1 + p / 8192) as u16, &mut buf).unwrap();
    let byte = buf[((p % 8192) / 8) as usize];
    byte & (0x80 >> (p % 8)) != 0
}

fn image(device: &Device, blocks: u16) -> Vec<u8> {
    let mut all = Vec::new();
    let mut buf = vec![0u8; 1024];
    for b in 0..blocks {
        device.read_block(b, &mut buf).unwrap();
        all.extend_from_slice(&buf);
    }
    all
}

#[test]
fn format_8192() {
    let mut device = Device::new(8192);
    assert_eq!(FileCore::init(&mut device, 8192), Ok(()));
    let sb = Superblock::read(&device).unwrap();
    assert_eq!(sb, Superblock::new(8192));
    assert_eq!(sb.free_blocks, 8192 - 1 - 1 - 256);
    assert_eq!(sb.free_inodes, sb.total_inodes);
    for p in 0..8192u32 {
        assert_eq!(used(&device, p), p < sb.first_data_block as u32, "block {}", p);
    }
    let empty = Inode::empty().to_bytes();
    let mut buf = vec![0u8; 1024];
    device.read_block(sb.last_inode_block, &mut buf).unwrap();
    assert_eq!(&buf[960..1024], &empty[..]);
    device.read_block(sb.first_data_block, &mut buf).unwrap();
    assert!(buf.iter().all(|b| *b == 0));
}

#[test]
fn format_leaves_blocks_beyond_total() {
    let mut device = Device::new(12);
    let ones = vec![0xffu8; 1024];
    for b in 0..12 {
        device.write_block(b, &ones).unwrap();
    }
    assert_eq!(FileCore::init(&mut device, 10), Ok(()));
    let mut buf = vec![0u8; 1024];
    device.read_block(10, &mut buf).unwrap();
    assert_eq!(buf, ones);
    device.read_block(9, &mut buf).unwrap();
    assert!(buf.iter().all(|b| *b == 0));
    device.read_block(1, &mut buf).unwrap();
    assert_eq!(buf[0], 0b1110_0000);
    assert!(buf[1..].iter().all(|b| *b == 0));
}

#[test]
fn reformat_overwrites_prior_state() {
    let mut fresh = Device::new(300);
    assert_eq!(FileCore::init(&mut fresh, 300), Ok(()));

    let mut used_device = Device::new(300);
    assert_eq!(FileCore::init(&mut used_device, 300), Ok(()));
    let junk = vec![0x5au8; 1024];
    for b in [0u16, 1, 2, 50, 299] {
        used_device.write_block(b, &junk).unwrap();
    }
    assert_eq!(FileCore::init(&mut used_device, 300), Ok(()));
    assert_eq!(image(&used_device, 300), image(&fresh, 300));
}

#[test]
fn format_needs_enough_blocks() {
    let mut device = Device::new(50);
    assert_eq!(FileCore::init(&mut device, 100), Err(FsError::UnexpectedEnd));
    assert_eq!(image(&device, 50), vec![0u8; 50 * 1024]);
}
