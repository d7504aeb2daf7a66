use vstd::prelude::*;
use crate::codec::{push_words, words_le};
use crate::device::{block_of, overwrite, Device, FsError, BLOCK_SIZE};
use crate::superblock::{inode_table_blocks, layout_consistent, sb_decode, Superblock};

verus! {

/// Size of one inode record, in bytes.
pub const INODE_SIZE: u16 = 64;

/// The sixteen-bit fields of `i`, in their on-disk order.
pub open spec fn inode_words(i: Inode) -> Seq<u16> {
    seq![i.atime, i.mtime, i.ctime, i.link_number, i.log_byte_size, i.oc_data_blocks]
        + i.direct_pointers@ + i.indirect_pointers@
}

/// The 64 bytes that hold `i` on disk: type and permissions, then the
/// sixteen-bit fields low byte first, then the padding.
pub open spec fn inode_encode(i: Inode) -> Seq<u8> {
    seq![i.inode_type, i.permissions] + words_le(inode_words(i)) + i.padding@
}

/// The record of an empty file: type `f`, permissions 7, every other byte zero.
pub open spec fn empty_record() -> Seq<u8> {
    seq![102u8, 7u8] + Seq::new(62, |k: int| 0u8)
}

/// Block of the inode table that holds record `position`.
pub open spec fn record_block(sb: Superblock, position: u16) -> int {
    sb.first_inode_block + position / 16
}

/// Position on the device of the first byte of record `position`: records follow
/// each other from the start of the inode table.
pub open spec fn record_offset(sb: Superblock, position: u16) -> int {
    sb.first_inode_block * 1024 + position * 64
}

/// Record `position` lies inside the inode table of a consistent superblock, at
/// byte `(position % 16) * 64` of its block.
pub proof fn lemma_record_in_table(sb: Superblock, position: u16)
    requires
        layout_consistent(sb),
        position < sb.total_inodes,
    ensures
        record_block(sb, position) <= sb.last_inode_block,
        record_offset(sb, position) == record_block(sb, position) * 1024 + (position % 16) * 64,
        record_offset(sb, position) + 64 <= (sb.last_inode_block + 1) * 1024,
        sb.first_inode_block <= 9,
{
    let t = sb.total_inodes as int;
    let p = position as int;
    assert(sb.total_inodes == sb.total_blocks / 2);
    assert((p / 16) * 16 <= p) by (nonlinear_arith);
    assert((p / 16 + 1) * 1024 <= t * 64 + 1023) by (nonlinear_arith)
        requires
            (p / 16) * 16 <= p,
            p < t,
    ;
    assert(p / 16 + 1 <= (t * 64 + 1023) / 1024) by (nonlinear_arith)
        requires
            (p / 16 + 1) * 1024 <= t * 64 + 1023,
    ;
    assert(inode_table_blocks(sb.total_blocks as nat) == (t * 64 + 1023) / 1024);
    assert(p * 64 == (p / 16) * 1024 + (p % 16) * 64) by (nonlinear_arith);
}

/// In the image `d`, the first `sb.total_inodes` records of the inode table hold
/// the empty record.
pub open spec fn table_initialized(d: Seq<u8>, sb: Superblock) -> bool {
    forall|k: int|
        sb.first_inode_block * 1024 <= k < sb.first_inode_block * 1024 + sb.total_inodes * 64
            ==> #[trigger] d[k] == empty_record()[(k - sb.first_inode_block * 1024) % 64]
}

/// Bytes of the image that lie outside the records of the inode table of `sb`.
pub open spec fn outside_records(sb: Superblock, k: int) -> bool {
    !(sb.first_inode_block * 1024 <= k < sb.first_inode_block * 1024 + sb.total_inodes * 64)
}

proof fn lemma_mod_64(p: int, j: int)
    requires
        0 <= p,
        0 <= j < 64,
    ensures
        (p * 64 + j) % 64 == j,
{
    assert((p * 64 + j) % 64 == j) by (nonlinear_arith)
        requires
            0 <= p,
            0 <= j < 64,
    ;
}

/// One inode: the attributes of a file and its block pointers.
pub struct Inode {
    pub inode_type: u8,
    pub permissions: u8,
    /// access time
    pub atime: u16,
    /// data modification time
    pub mtime: u16,
    /// inode modification time
    pub ctime: u16,
    /// number of directory entries that link to the inode
    pub link_number: u16,
    /// size in bytes
    pub log_byte_size: u16,
    /// number of data blocks in use
    pub oc_data_blocks: u16,
    pub direct_pointers: [u16; 12],
    /// single, double and triple indirect pointers
    pub indirect_pointers: [u16; 3],
    pub padding: [u8; 20],
}

impl Inode {
    /// The record of an empty file: type `f`, permissions 7, no times, links,
    /// size or blocks.
    pub fn empty() -> (r: Inode)
        ensures
            inode_encode(r) == empty_record(),
    {
        let r = Inode {
            inode_type: 'f' as u8,
            permissions: 7,
            atime: 0,
            mtime: 0,
            ctime: 0,
            link_number: 0,
            log_byte_size: 0,
            oc_data_blocks: 0,
            direct_pointers: [0u16; 12],
            indirect_pointers: [0u16; 3],
            padding: [0u8; 20],
        };
        assert(inode_encode(r) =~= empty_record());
        r
    }

    /// The 64 bytes that hold this inode on disk.
    pub fn to_bytes(&self) -> (r: Vec<u8>)
        ensures
            r@ == inode_encode(*self),
            r@.len() == 64,
    {
        let mut words: Vec<u16> = vec![
            self.atime,
            self.mtime,
            self.ctime,
            self.link_number,
            self.log_byte_size,
            self.oc_data_blocks,
        ];
        let ghost head = words@;
        let mut i: usize = 0;
        while i < 12
            invariant
                i <= 12,
                words@ == head + self.direct_pointers@.take(i as int),
            decreases 12 - i,
        {
            words.push(self.direct_pointers[i]);
            i = i + 1;
            assert(words@ =~= head + self.direct_pointers@.take(i as int));
        }
        assert(self.direct_pointers@.take(12) =~= self.direct_pointers@);
        let ghost head2 = words@;
        let mut i: usize = 0;
        while i < 3
            invariant
                i <= 3,
                words@ == head2 + self.indirect_pointers@.take(i as int),
            decreases 3 - i,
        {
            words.push(self.indirect_pointers[i]);
            i = i + 1;
            assert(words@ =~= head2 + self.indirect_pointers@.take(i as int));
        }
        assert(self.indirect_pointers@.take(3) =~= self.indirect_pointers@);
        assert(words@ =~= inode_words(*self));
        let mut bytes: Vec<u8> = Vec::new();
        bytes.push(self.inode_type);
        bytes.push(self.permissions);
        push_words(&mut bytes, &words);
        let ghost head3 = bytes@;
        let mut i: usize = 0;
        while i < 20
            invariant
                i <= 20,
                bytes@ == head3 + self.padding@.take(i as int),
            decreases 20 - i,
        {
            bytes.push(self.padding[i]);
            i = i + 1;
            assert(bytes@ =~= head3 + self.padding@.take(i as int));
        }
        assert(self.padding@.take(20) =~= self.padding@);
        assert(bytes@ =~= inode_encode(*self));
        bytes
    }

    /// Stores `inode` as record `position` of the table that `sb` describes: one
    /// block read, the record's 64 bytes replaced, one block write. Fails with
    /// `UnexpectedEnd`, leaving the device unchanged, where the record's block lies
    /// beyond the device.
    fn write_inode_at(device: &mut Device, sb: &Superblock, inode: &Inode, position: u16) -> (r:
        Result<(), FsError>)
        requires
            old(device).wf(),
            layout_consistent(*sb),
            position < sb.total_inodes,
        ensures
            final(device).wf(),
            final(device).spec_num_blocks() == old(device).spec_num_blocks(),
            r is Ok <==> record_block(*sb, position) < old(device).spec_num_blocks(),
            r is Ok ==> final(device)@ == overwrite(
                old(device)@,
                record_offset(*sb, position),
                inode_encode(*inode),
            ),
            r is Err ==> r == Err::<(), FsError>(FsError::UnexpectedEnd) && final(device)@ == old(device)@,
    {
        proof {
            lemma_record_in_table(*sb, position);
        }
        let bytes = inode.to_bytes();
        let inodes_per_block: u16 = BLOCK_SIZE / INODE_SIZE;
        let target_block: u16 = sb.first_inode_block + (position / inodes_per_block);
        let position_in_block: usize = ((position % inodes_per_block) * INODE_SIZE) as usize;
        let mut buf: Vec<u8> = vec![0u8; 1024];
        device.read_block(target_block, &mut buf)?;
        let ghost blk = buf@;
        let mut i: usize = 0;
        while i < 64
            invariant
                i <= 64,
                position_in_block + 64 <= 1024,
                bytes@.len() == 64,
                buf@.len() == 1024,
                forall|j: int|
                    0 <= j < 1024 ==> #[trigger] buf@[j] == (if position_in_block <= j
                        < position_in_block + i {
                        bytes@[j - position_in_block]
                    } else {
                        blk[j]
                    }),
            decreases 64 - i,
        {
            buf[position_in_block + i] = bytes[i];
            i = i + 1;
        }
        device.write_block(target_block, &buf)?;
        assert(device@ =~= overwrite(old(device)@, record_offset(*sb, position), inode_encode(*inode)));
        Ok(())
    }

    /// Stores `inode` as record `position` of the inode table: the superblock in
    /// block 0 says where the table lies. Fails where block 0 holds no consistent
    /// superblock, or where the record's block lies beyond the device, leaving the
    /// device unchanged.
    pub fn write_inode(device: &mut Device, inode: &Inode, position: u16) -> (r: Result<
        (),
        FsError,
    >)
        requires
            old(device).wf(),
            position < sb_decode(block_of(old(device)@, 0)).total_inodes,
        ensures
            final(device).wf(),
            final(device).spec_num_blocks() == old(device).spec_num_blocks(),
            ({
                let sb = sb_decode(block_of(old(device)@, 0));
                if old(device).spec_num_blocks() == 0 {
                    r == Err::<(), FsError>(FsError::UnexpectedEnd)
                } else if !layout_consistent(sb) {
                    r == Err::<(), FsError>(FsError::LayoutInconsistent)
                } else if record_block(sb, position) >= old(device).spec_num_blocks() {
                    r == Err::<(), FsError>(FsError::UnexpectedEnd)
                } else {
                    r is Ok && final(device)@ == overwrite(
                        old(device)@,
                        record_offset(sb, position),
                        inode_encode(*inode),
                    )
                }
            }),
            r is Err ==> final(device)@ == old(device)@,
    {
        let sb = Superblock::read(device)?;
        Self::write_inode_at(device, &sb, inode, position)
    }

    /// Writes the empty record into every slot of the inode table. Fails where
    /// block 0 holds no consistent superblock, or where the table lies beyond the
    /// device, leaving the device unchanged.
    pub fn init_inode_array(device: &mut Device) -> (r: Result<(), FsError>)
        requires
            old(device).wf(),
        ensures
            final(device).wf(),
            final(device).spec_num_blocks() == old(device).spec_num_blocks(),
            ({
                let sb = sb_decode(block_of(old(device)@, 0));
                if old(device).spec_num_blocks() == 0 {
                    r == Err::<(), FsError>(FsError::UnexpectedEnd)
                } else if !layout_consistent(sb) {
                    r == Err::<(), FsError>(FsError::LayoutInconsistent)
                } else if sb.last_inode_block >= old(device).spec_num_blocks() {
                    r == Err::<(), FsError>(FsError::UnexpectedEnd)
                } else {
                    &&& r is Ok
                    &&& table_initialized(final(device)@, sb)
                    &&& forall|k: int|
                        0 <= k < old(device)@.len() && outside_records(sb, k) ==> #[trigger] final(device)@[k]
                            == old(device)@[k]
                }
            }),
            r is Err ==> final(device)@ == old(device)@,
    {
        let sb = Superblock::read(device)?;
        if sb.last_inode_block >= device.num_blocks() {
            return Err(FsError::UnexpectedEnd);
        }
        let inode = Self::empty();
        let ghost d0 = device@;
        let ghost start = sb.first_inode_block * 1024;
        let mut pos: u16 = 0;
        while pos < sb.total_inodes
            invariant
                pos <= sb.total_inodes,
                layout_consistent(sb),
                sb.last_inode_block < device.spec_num_blocks(),
                start == sb.first_inode_block * 1024,
                inode_encode(inode) == empty_record(),
                device.wf(),
                device.spec_num_blocks() == old(device).spec_num_blocks(),
                d0 == old(device)@,
                device@.len() == d0.len(),
                forall|k: int|
                    0 <= k < d0.len() && !(start <= k < start + pos * 64) ==> #[trigger] device@[k]
                        == d0[k],
                forall|k: int|
                    start <= k < start + pos * 64 ==> #[trigger] device@[k] == empty_record()[(k
                        - start) % 64],
            decreases sb.total_inodes - pos,
        {
            proof {
                lemma_record_in_table(sb, pos);
            }
            let ghost before = device@;
            let _ = Self::write_inode_at(device, &sb, &inode, pos);
            proof {
                assert(record_offset(sb, pos) == start + pos * 64);
                assert forall|k: int|
                    0 <= k < d0.len() && !(start <= k < start + (pos + 1) * 64) implies #[trigger] device@[k]
                        == d0[k] by {
                    assert(device@[k] == overwrite(before, start + pos * 64, empty_record())[k]);
                    assert(before[k] == d0[k]);
                }
                assert forall|k: int| start <= k < start + (pos + 1) * 64 implies #[trigger] device@[k]
                    == empty_record()[(k - start) % 64] by {
                    assert(device@[k] == overwrite(before, start + pos * 64, empty_record())[k]);
                    if k >= start + pos * 64 {
                        lemma_mod_64(pos as int, k - start - pos * 64);
                    } else {
                        assert(before[k] == empty_record()[(k - start) % 64]);
                    }
                }
            }
            pos = pos + 1;
        }
        Ok(())
    }
}

/// Reading back the block of a record just written gives the record's bytes at
/// its place in that block.
pub proof fn lemma_record_round_trip(d: Seq<u8>, sb: Superblock, position: u16, inode: Inode)
    requires
        layout_consistent(sb),
        position < sb.total_inodes,
        (record_block(sb, position) + 1) * 1024 <= d.len(),
    ensures
        block_of(overwrite(d, record_offset(sb, position), inode_encode(inode)), record_block(sb, position)).subrange(
            (position % 16) * 64,
            (position % 16) * 64 + 64,
        ) == inode_encode(inode),
{
    lemma_record_in_table(sb, position);
    let e = overwrite(d, record_offset(sb, position), inode_encode(inode));
    assert(block_of(e, record_block(sb, position)).subrange((position % 16) * 64, (position % 16) * 64 + 64)
        =~= inode_encode(inode));
}

} // verus!