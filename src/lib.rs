pub mod bitmap;
pub mod codec;
pub mod device;
pub mod inode;
pub mod superblock;
pub mod file_core;
