use filesystem::device::{Device, FsError};
use filesystem::inode::{Inode, INODE_SIZE};
use filesystem::superblock::Superblock;

#[test]
fn inode_size() {
    assert_eq!(std::mem::size_of::<Inode>(), INODE_SIZE as usize);
}

fn sample() -> Inode {
    let mut direct = [0u16; 12];
    for (i, d) in direct.iter_mut().enumerate() {
        *d = 0x0100 + i as u16;
    }
    Inode {
        inode_type: b'd',
        permissions: 5,
        atime: 0x1234,
        mtime: 2,
        ctime: 3,
        link_number: 4,
        log_byte_size: 0xabcd,
        oc_data_blocks: 6,
        direct_pointers: direct,
        indirect_pointers: [7, 8, 0xfffe],
        padding: [0u8; 20],
    }
}

#[test]
fn empty_record_bytes() {
    let bytes = Inode::empty().to_bytes();
    assert_eq!(bytes.len(), 64);
    assert_eq!(bytes[0], b'f');
    assert_eq!(bytes[1], 7);
    assert!(bytes[2..].iter().all(|b| *b == 0));
}

#[test]
fn record_layout_is_little_endian_in_field_order() {
    let bytes = sample().to_bytes();
    assert_eq!(bytes.len(), 64);
    assert_eq!(&bytes[0..4], &[b'd', 5, 0x34, 0x12]);
    assert_eq!(&bytes[4..14], &[2, 0, 3, 0, 4, 0, 0xcd, 0xab, 6, 0]);
    assert_eq!(&bytes[14..16], &[0x00, 0x01]);
    assert_eq!(&bytes[36..38], &[0x0b, 0x01]);
    assert_eq!(&bytes[38..44], &[7, 0, 8, 0, 0xfe, 0xff]);
    assert!(bytes[44..].iter().all(|b| *b == 0));
}

#[test]
fn record_round_trip() {
    let mut device = Device::new(8192);
    Superblock::init(&mut device, 8192).unwrap();
    let sb = Superblock::read(&device).unwrap();
    let inode = sample();
    let position: u16 = 37;
    assert_eq!(Inode::write_inode(&mut device, &inode, position), Ok(()));
    let block = sb.first_inode_block + position / 16;
    assert_eq!(block, 4);
    let mut buf = vec![0u8; 1024];
    device.read_block(block, &mut buf).unwrap();
    let offset = (position % 16) as usize * 64;
    assert_eq!(&buf[offset..offset + 64], &inode.to_bytes()[..]);
    assert!(buf[..offset].iter().all(|b| *b == 0));
    assert!(buf[offset + 64..].iter().all(|b| *b == 0));
}

#[test]
fn write_inode_errors() {
    let mut device = Device::new(4);
    assert_eq!(
        Inode::init_inode_array(&mut device),
        Err(FsError::LayoutInconsistent)
    );
    // a superblock for 100 blocks on a device of 4: the table lies beyond it
    let sb = Superblock::new(100);
    Superblock::write(&mut device, &sb).unwrap();
    assert_eq!(Inode::init_inode_array(&mut device), Err(FsError::UnexpectedEnd));
    assert_eq!(
        Inode::write_inode(&mut device, &Inode::empty(), 49),
        Err(FsError::UnexpectedEnd)
    );
    assert_eq!(Inode::write_inode(&mut device, &Inode::empty(), 0), Ok(()));
}

#[test]
fn init_inode_array_fills_table() {
    let mut device = Device::new(100);
    Superblock::init(&mut device, 100).unwrap();
    assert_eq!(Inode::init_inode_array(&mut device), Ok(()));
    let sb = Superblock::read(&device).unwrap();
    assert_eq!(sb.total_inodes, 50);
    let empty = Inode::empty().to_bytes();
    let mut buf = vec![0u8; 1024];
    for block in sb.first_inode_block..=sb.last_inode_block {
        device.read_block(block, &mut buf).unwrap();
        for slot in 0..16usize {
            let index = (block - sb.first_inode_block) as usize * 16 + slot;
            let rec = &buf[slot * 64..slot * 64 + 64];
            if index < 50 {
                assert_eq!(rec, &empty[..]);
            } else {
                assert!(rec.iter().all(|b| *b == 0));
            }
        }
    }
}
