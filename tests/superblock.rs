use filesystem::device::{Device, FsError};
use filesystem::superblock::Superblock;

#[test]
fn inode_array_blocks() {
    assert_eq!(Superblock::inode_array_blocks(2048), 64);
    assert_eq!(Superblock::inode_array_blocks(2050), 65);
}

#[test]
fn inode_array_blocks_large_and_odd() {
    // 4096 records of 64 bytes: 256 blocks, with no overflow of the byte count
    assert_eq!(Superblock::inode_array_blocks(8192), 256);
    assert_eq!(Superblock::inode_array_blocks(65535), 2048);
    assert_eq!(Superblock::inode_array_blocks(2049), 64);
    assert_eq!(Superblock::inode_array_blocks(1), 0);
    assert_eq!(Superblock::inode_array_blocks(2), 1);
}

#[test]
fn layout_regions_are_contiguous() {
    for n in [3u16, 100, 2050, 8192, 8500, 65535] {
        assert!(Superblock::fits(n));
        let sb = Superblock::new(n);
        assert_eq!(sb.first_bitmap_block, 1);
        assert_eq!(sb.last_bitmap_block + 1, sb.first_inode_block);
        assert_eq!(sb.last_inode_block + 1, sb.first_data_block);
        assert_eq!(sb.last_data_block, n - 1);
        assert_eq!(sb.total_inodes, n / 2);
        assert!(sb.is_consistent());
    }
}

#[test]
fn layout_of_8192() {
    let sb = Superblock::new(8192);
    assert_eq!(sb.last_bitmap_block, 1);
    assert_eq!(sb.first_inode_block, 2);
    assert_eq!(sb.last_inode_block, 257);
    assert_eq!(sb.first_data_block, 258);
    assert_eq!(sb.last_data_block, 8191);
    assert_eq!(sb.free_blocks, 8192 - 1 - 1 - 256);
    assert_eq!(sb.free_inodes, 4096);
    assert_eq!(sb.root_dir_inode, 0);
    assert_eq!(sb.first_free_inode, 1);
    assert_eq!(sb.get_first_data_block(), 258);
    assert_eq!(sb.get_first_inode_block(), 2);
    assert_eq!(sb.get_total_inodes(), 4096);
}

#[test]
fn too_small_devices_do_not_fit() {
    assert!(!Superblock::fits(0));
    assert!(!Superblock::fits(1));
    assert!(!Superblock::fits(2));
    assert!(Superblock::fits(3));
}

#[test]
fn superblock_bytes() {
    let sb = Superblock::new(8192);
    let bytes = sb.to_bytes();
    assert_eq!(bytes.len(), 1024);
    assert_eq!(
        &bytes[0..24],
        &[1, 0, 1, 0, 2, 0, 1, 1, 2, 1, 0xff, 0x1f, 0, 0, 1, 0, 0xfe, 0x1e, 0, 0x10, 0, 0x20, 0, 0x10]
    );
    assert!(bytes[24..].iter().all(|b| *b == 0));
    assert_eq!(Superblock::from_bytes(&bytes), sb);
}

#[test]
fn write_then_read() {
    let mut device = Device::new(10);
    let sb = Superblock::new(10);
    assert_eq!(Superblock::write(&mut device, &sb), Ok(()));
    assert_eq!(Superblock::read(&device), Ok(sb));
}

#[test]
fn read_rejects_inconsistent_block_zero() {
    let device = Device::new(10);
    assert_eq!(Superblock::read(&device), Err(FsError::LayoutInconsistent));
    let mut device = Device::new(10);
    let mut sb = Superblock::new(10);
    sb.first_data_block += 1;
    Superblock::write(&mut device, &sb).unwrap();
    assert_eq!(Superblock::read(&device), Err(FsError::LayoutInconsistent));
    let empty = Device::new(0);
    assert_eq!(Superblock::read(&empty), Err(FsError::UnexpectedEnd));
    let mut empty = Device::new(0);
    assert_eq!(Superblock::init(&mut empty, 10), Err(FsError::UnexpectedEnd));
}

#[test]
fn decrement_free_blocks_counts_one() {
    let mut sb = Superblock::new(100);
    assert_eq!(sb.free_blocks, 94);
    sb.decrement_free_blocks();
    assert_eq!(sb.free_blocks, 93);
    assert!(sb.is_consistent());
}
