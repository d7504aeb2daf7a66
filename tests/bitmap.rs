use filesystem::bitmap::Bitmap;
use filesystem::device::{Device, FsError};
use filesystem::superblock::Superblock;

#[test]
fn size() {
    assert_eq!(Bitmap::size(8192), 1);
    assert_eq!(Bitmap::size(8500), 2);
}

#[test]
fn set_bit() {
    let mut buf = vec![0u8; Device::BLOCK_SIZE as usize];
    Bitmap::set_bit(1, 15, &mut buf);
    assert_eq!(buf[1], 1);
    Bitmap::set_bit(0, 15, &mut buf);
    assert_eq!(buf[1], 0);
}

#[test]
fn size_edges() {
    assert_eq!(Bitmap::size(0), 0);
    assert_eq!(Bitmap::size(1), 1);
    assert_eq!(Bitmap::size(8193), 2);
    assert_eq!(Bitmap::size(16384), 2);
    assert_eq!(Bitmap::size(65535), 8);
}

#[test]
fn set_bit_is_msb_first() {
    let mut buf = vec![0u8; 1024];
    Bitmap::set_bit(1, 0, &mut buf);
    assert_eq!(buf[0], 0b1000_0000);
    Bitmap::set_bit(1, 3, &mut buf);
    assert_eq!(buf[0], 0b1001_0000);
    // positions wrap around within one bitmap block
    Bitmap::set_bit(1, 8192 + 9, &mut buf);
    assert_eq!(buf[1], 0b0100_0000);
    assert!(buf[2..].iter().all(|b| *b == 0));
}

#[test]
fn set_bit_round_trip_keeps_neighbours() {
    let mut buf = vec![0u8; 1024];
    buf[5] = 0b1010_0101;
    let before = buf.clone();
    // bit of position 41 is byte 5, offset 1: currently clear
    Bitmap::set_bit(1, 41, &mut buf);
    assert_eq!(buf[5], 0b1110_0101);
    Bitmap::set_bit(0, 41, &mut buf);
    assert_eq!(buf, before);
}

#[test]
fn write_bit_on_device() {
    let mut device = Device::new(3);
    assert_eq!(Bitmap::write_bit(&mut device, 1, 10), Ok(()));
    let mut buf = vec![0u8; 1024];
    device.read_block(1, &mut buf).unwrap();
    assert_eq!(buf[1], 0b0010_0000);
    assert_eq!(Bitmap::write_bit(&mut device, 0, 10), Ok(()));
    device.read_block(1, &mut buf).unwrap();
    assert_eq!(buf[1], 0);
    // the bitmap block of position 8192 is block 2; that of 16384 is missing
    assert_eq!(Bitmap::write_bit(&mut device, 1, 8192), Ok(()));
    assert_eq!(Bitmap::write_bit(&mut device, 1, 16384), Err(FsError::UnexpectedEnd));
}

#[test]
fn bitmap_init_needs_superblock() {
    let mut device = Device::new(8);
    assert_eq!(Bitmap::init(&mut device), Err(FsError::LayoutInconsistent));
    let mut empty = Device::new(0);
    assert_eq!(Bitmap::init(&mut empty), Err(FsError::UnexpectedEnd));
}

#[test]
fn bitmap_init_marks_metadata() {
    let mut device = Device::new(100);
    Superblock::init(&mut device, 100).unwrap();
    assert_eq!(Bitmap::init(&mut device), Ok(()));
    let sb = Superblock::read(&device).unwrap();
    assert_eq!(sb.first_data_block, 6);
    let mut buf = vec![0u8; 1024];
    device.read_block(1, &mut buf).unwrap();
    assert_eq!(buf[0], 0b1111_1100);
    assert!(buf[1..].iter().all(|b| *b == 0));
    // the free counter does not count metadata blocks in the first place
    assert_eq!(sb.free_blocks, 94);
}
