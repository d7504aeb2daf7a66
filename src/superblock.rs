use vstd::prelude::*;
use crate::bitmap::{bitmap_blocks, Bitmap};
use crate::codec::{lemma_word_at_words_le, push_words, read_word, word_at, words_le};
use crate::device::{block_of, overwrite, Device, FsError, BLOCK_SIZE};
use crate::inode::INODE_SIZE;

verus! {

/// Number of blocks the inode table of a device of `n` blocks occupies:
/// `n / 2` records of 64 bytes, rounded up to whole blocks.
pub open spec fn inode_table_blocks(n: nat) -> nat {
    ((n / 2) * 64 + 1023) / 1024
}

/// A device of `n` blocks has room for the superblock, the bitmap and the inode table.
pub open spec fn layout_fits(n: nat) -> bool {
    1 + bitmap_blocks(n) + inode_table_blocks(n) <= n
}

/// The superblock that formatting a device of `n` blocks writes.
pub open spec fn layout_of(n: u16) -> Superblock {
    let bm = bitmap_blocks(n as nat);
    let ib = inode_table_blocks(n as nat);
    Superblock {
        first_bitmap_block: 1,
        last_bitmap_block: bm as u16,
        first_inode_block: (bm + 1) as u16,
        last_inode_block: (bm + ib) as u16,
        first_data_block: (bm + ib + 1) as u16,
        last_data_block: (n - 1) as u16,
        root_dir_inode: 0,
        first_free_inode: 1,
        free_blocks: (n - 1 - bm - ib) as u16,
        free_inodes: (n / 2) as u16,
        total_blocks: n,
        total_inodes: (n / 2) as u16,
    }
}

/// The regions recorded in `sb` are those that formatting a device of
/// `sb.total_blocks` blocks lays out, and its free counters do not exceed the
/// capacity of the data region and of the inode table.
pub open spec fn layout_consistent(sb: Superblock) -> bool {
    let l = layout_of(sb.total_blocks);
    &&& layout_fits(sb.total_blocks as nat)
    &&& sb.first_bitmap_block == l.first_bitmap_block
    &&& sb.last_bitmap_block == l.last_bitmap_block
    &&& sb.first_inode_block == l.first_inode_block
    &&& sb.last_inode_block == l.last_inode_block
    &&& sb.first_data_block == l.first_data_block
    &&& sb.last_data_block == l.last_data_block
    &&& sb.total_inodes == l.total_inodes
    &&& sb.free_blocks <= l.free_blocks
    &&& sb.free_inodes <= sb.total_inodes
}

/// The superblock that formatting writes is consistent.
pub proof fn lemma_layout_consistent(n: u16)
    requires
        layout_fits(n as nat),
    ensures
        layout_consistent(layout_of(n)),
{
}

/// The twelve fields of `sb`, in their on-disk order.
pub open spec fn sb_words(sb: Superblock) -> Seq<u16> {
    seq![
        sb.first_bitmap_block,
        sb.last_bitmap_block,
        sb.first_inode_block,
        sb.last_inode_block,
        sb.first_data_block,
        sb.last_data_block,
        sb.root_dir_inode,
        sb.first_free_inode,
        sb.free_blocks,
        sb.free_inodes,
        sb.total_blocks,
        sb.total_inodes,
    ]
}

/// Block 0 as it holds `sb`: the fields, two bytes each, low byte first,
/// then zero padding to the end of the block.
pub open spec fn sb_encode(sb: Superblock) -> Seq<u8> {
    words_le(sb_words(sb)) + Seq::new(1000, |k: int| 0u8)
}

/// The superblock that the 1024 bytes `b` hold.
pub open spec fn sb_decode(b: Seq<u8>) -> Superblock {
    Superblock {
        first_bitmap_block: word_at(b, 0),
        last_bitmap_block: word_at(b, 1),
        first_inode_block: word_at(b, 2),
        last_inode_block: word_at(b, 3),
        first_data_block: word_at(b, 4),
        last_data_block: word_at(b, 5),
        root_dir_inode: word_at(b, 6),
        first_free_inode: word_at(b, 7),
        free_blocks: word_at(b, 8),
        free_inodes: word_at(b, 9),
        total_blocks: word_at(b, 10),
        total_inodes: word_at(b, 11),
    }
}

/// Decoding the bytes of an encoded superblock gives it back.
pub proof fn lemma_sb_decode_encode(sb: Superblock)
    ensures
        sb_encode(sb).len() == 1024,
        sb_decode(sb_encode(sb)) == sb,
{
    let w = sb_words(sb);
    let z = Seq::new(1000, |k: int| 0u8);
    assert forall|k: int| 0 <= k < 12 implies word_at(words_le(w) + z, k) == w[k] by {
        lemma_word_at_words_le(w, z, k);
    }
}

/// The record kept in block 0: where each region lies, and the free counters.
#[derive(Debug, Clone, Copy, PartialEq, Eq, Structural)]
pub struct Superblock {
    pub first_bitmap_block: u16,
    pub last_bitmap_block: u16,
    pub first_inode_block: u16,
    pub last_inode_block: u16,
    pub first_data_block: u16,
    pub last_data_block: u16,
    pub root_dir_inode: u16,
    pub first_free_inode: u16,
    pub free_blocks: u16,
    pub free_inodes: u16,
    pub total_blocks: u16,
    pub total_inodes: u16,
}

impl Superblock {
    /// Number of blocks used by the inode table of a device of `total_blocks`
    /// blocks. The table holds `total_blocks / 2` records.
    pub fn inode_array_blocks(total_blocks: u16) -> (r: u16)
        ensures
            r == inode_table_blocks(total_blocks as nat),
    {
        let total_inodes: u32 = (total_blocks / 2) as u32;
        let array_size: u32 = total_inodes * (INODE_SIZE as u32);
        let block_size: u32 = BLOCK_SIZE as u32;
        proof {
            let a = array_size as int;
            assert(a == (total_blocks as nat / 2) * 64);
            assert(a % 1024 == 0 ==> a / 1024 == (a + 1023) / 1024) by (nonlinear_arith);
            assert(a % 1024 != 0 ==> a / 1024 + 1 == (a + 1023) / 1024) by (nonlinear_arith);
            assert(a / 1024 <= 2048) by (nonlinear_arith) requires a <= 65535 * 32;
        }
        if array_size % block_size == 0 {
            (array_size / block_size) as u16
        } else {
            ((array_size / block_size) + 1) as u16
        }
    }

    /// Whether a device of `total_blocks` blocks has room for the superblock,
    /// the bitmap and the inode table.
    pub fn fits(total_blocks: u16) -> (r: bool)
        ensures
            r == layout_fits(total_blocks as nat),
    {
        let bm: u32 = Bitmap::size(total_blocks) as u32;
        let ib: u32 = Self::inode_array_blocks(total_blocks) as u32;
        1 + bm + ib <= total_blocks as u32
    }

    /// The superblock of a freshly formatted device of `total_blocks` blocks:
    /// superblock, bitmap, inode table and data region follow each other in that
    /// order, every data block and every inode counted free.
    pub fn new(total_blocks: u16) -> (r: Superblock)
        requires
            layout_fits(total_blocks as nat),
        ensures
            r == layout_of(total_blocks),
            r.first_bitmap_block == 1,
            r.last_bitmap_block - r.first_bitmap_block + 1 == bitmap_blocks(total_blocks as nat),
            r.last_bitmap_block + 1 == r.first_inode_block,
            r.last_inode_block + 1 - r.first_inode_block == inode_table_blocks(total_blocks as nat),
            r.last_inode_block + 1 == r.first_data_block,
            r.last_data_block == total_blocks - 1,
            r.free_blocks == total_blocks - 1 - bitmap_blocks(total_blocks as nat)
                - inode_table_blocks(total_blocks as nat),
            r.total_inodes == total_blocks / 2,
            r.free_inodes == r.total_inodes,
    {
        let bitmap_size = Bitmap::size(total_blocks);
        let inode_array_blocks = Self::inode_array_blocks(total_blocks);
        Superblock {
            first_bitmap_block: 1,
            last_bitmap_block: bitmap_size,
            first_inode_block: bitmap_size + 1,
            last_inode_block: bitmap_size + inode_array_blocks,
            first_data_block: bitmap_size + inode_array_blocks + 1,
            last_data_block: total_blocks - 1,
            root_dir_inode: 0,
            first_free_inode: 1,
            free_blocks: total_blocks - 1 - bitmap_size - inode_array_blocks,
            free_inodes: total_blocks / 2,
            total_blocks,
            total_inodes: total_blocks / 2,
        }
    }

    /// Whether the regions recorded here are laid out as formatting lays them out.
    pub fn is_consistent(&self) -> (r: bool)
        ensures
            r == layout_consistent(*self),
    {
        if !Self::fits(self.total_blocks) {
            return false;
        }
        let l = Self::new(self.total_blocks);
        self.first_bitmap_block == l.first_bitmap_block
            && self.last_bitmap_block == l.last_bitmap_block
            && self.first_inode_block == l.first_inode_block
            && self.last_inode_block == l.last_inode_block
            && self.first_data_block == l.first_data_block
            && self.last_data_block == l.last_data_block
            && self.total_inodes == l.total_inodes
            && self.free_blocks <= l.free_blocks
            && self.free_inodes <= self.total_inodes
    }

    /// The 1024 bytes of block 0 that hold this superblock.
    pub fn to_bytes(&self) -> (r: Vec<u8>)
        ensures
            r@ == sb_encode(*self),
    {
        let words: Vec<u16> = vec![
            self.first_bitmap_block,
            self.last_bitmap_block,
            self.first_inode_block,
            self.last_inode_block,
            self.first_data_block,
            self.last_data_block,
            self.root_dir_inode,
            self.first_free_inode,
            self.free_blocks,
            self.free_inodes,
            self.total_blocks,
            self.total_inodes,
        ];
        assert(words@ =~= sb_words(*self));
        let mut bytes: Vec<u8> = Vec::new();
        push_words(&mut bytes, &words);
        let mut k: usize = 0;
        while k < 1000
            invariant
                k <= 1000,
                bytes@ == words_le(sb_words(*self)) + Seq::new(k as nat, |j: int| 0u8),
            decreases 1000 - k,
        {
            bytes.push(0u8);
            k = k + 1;
            assert(bytes@ =~= words_le(sb_words(*self)) + Seq::new(k as nat, |j: int| 0u8));
        }
        bytes
    }

    /// The superblock held by the 1024 bytes `buf`.
    pub fn from_bytes(buf: &Vec<u8>) -> (r: Superblock)
        requires
            buf@.len() == 1024,
        ensures
            r == sb_decode(buf@),
    {
        Superblock {
            first_bitmap_block: read_word(buf, 0),
            last_bitmap_block: read_word(buf, 1),
            first_inode_block: read_word(buf, 2),
            last_inode_block: read_word(buf, 3),
            first_data_block: read_word(buf, 4),
            last_data_block: read_word(buf, 5),
            root_dir_inode: read_word(buf, 6),
            first_free_inode: read_word(buf, 7),
            free_blocks: read_word(buf, 8),
            free_inodes: read_word(buf, 9),
            total_blocks: read_word(buf, 10),
            total_inodes: read_word(buf, 11),
        }
    }

    /// Loads the superblock from block 0. Fails with `UnexpectedEnd` on a device
    /// without blocks, and with `LayoutInconsistent` where block 0 does not hold a
    /// consistent superblock.
    pub fn read(device: &Device) -> (r: Result<Superblock, FsError>)
        requires
            device.wf(),
        ensures
            device.spec_num_blocks() == 0 ==> r == Err::<Superblock, FsError>(FsError::UnexpectedEnd),
            device.spec_num_blocks() > 0 ==> r == (if layout_consistent(sb_decode(block_of(device@, 0))) {
                Ok::<Superblock, FsError>(sb_decode(block_of(device@, 0)))
            } else {
                Err(FsError::LayoutInconsistent)
            }),
    {
        let mut buf: Vec<u8> = vec![0u8; 1024];
        device.read_block(0, &mut buf)?;
        let sb = Self::from_bytes(&buf);
        if sb.is_consistent() {
            Ok(sb)
        } else {
            Err(FsError::LayoutInconsistent)
        }
    }

    /// Stores `sb` in block 0. Fails with `UnexpectedEnd`, leaving the device
    /// unchanged, on a device without blocks.
    pub fn write(device: &mut Device, sb: &Superblock) -> (r: Result<(), FsError>)
        requires
            old(device).wf(),
        ensures
            final(device).wf(),
            final(device).spec_num_blocks() == old(device).spec_num_blocks(),
            r is Ok <==> old(device).spec_num_blocks() > 0,
            r is Ok ==> final(device)@ == overwrite(old(device)@, 0, sb_encode(*sb)),
            r is Err ==> r == Err::<(), FsError>(FsError::UnexpectedEnd) && final(device)@ == old(device)@,
    {
        let bytes = sb.to_bytes();
        device.write_block(0, &bytes)
    }

    /// Writes the superblock of a freshly formatted device of `total_blocks`
    /// blocks into block 0.
    pub fn init(device: &mut Device, total_blocks: u16) -> (r: Result<(), FsError>)
        requires
            old(device).wf(),
            layout_fits(total_blocks as nat),
        ensures
            final(device).wf(),
            final(device).spec_num_blocks() == old(device).spec_num_blocks(),
            r is Ok <==> old(device).spec_num_blocks() > 0,
            r is Ok ==> final(device)@ == overwrite(old(device)@, 0, sb_encode(layout_of(total_blocks))),
            r is Err ==> r == Err::<(), FsError>(FsError::UnexpectedEnd) && final(device)@ == old(device)@,
    {
        let sb = Self::new(total_blocks);
        Self::write(device, &sb)
    }

    pub fn get_first_data_block(&self) -> (r: u16)
        ensures
            r == self.first_data_block,
    {
        self.first_data_block
    }

    pub fn get_first_inode_block(&self) -> (r: u16)
        ensures
            r == self.first_inode_block,
    {
        self.first_inode_block
    }

    pub fn get_total_inodes(&self) -> (r: u16)
        ensures
            r == self.total_inodes,
    {
        self.total_inodes
    }

    /// Counts one more block as used.
    pub fn decrement_free_blocks(&mut self)
        requires
            old(self).free_blocks > 0,
        ensures
            *final(self) == (Superblock { free_blocks: (old(self).free_blocks - 1) as u16, ..*old(self) }),
    {
        self.free_blocks = self.free_blocks - 1;
    }
}

} // verus!