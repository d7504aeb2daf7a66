use vstd::prelude::*;
use crate::bitmap::{
    bit_byte_offset,
    bit_mask,
    bitmap_blocks,
    bitmap_initialized,
    block_used,
    lemma_bit_byte_offset,
    lemma_bits_determine_byte,
    outside_bitmap,
    Bitmap,
};
use crate::device::{block_of, overwrite, Device, FsError};
use crate::inode::{outside_records, table_initialized, Inode};
use crate::superblock::{
    inode_table_blocks,
    lemma_layout_consistent,
    lemma_sb_decode_encode,
    layout_consistent,
    layout_fits,
    layout_of,
    sb_decode,
    sb_encode,
    Superblock,
};

verus! {

/// The first `n` blocks of the image `d` hold a freshly formatted filesystem:
/// block 0 holds the superblock of `layout_of(n)`, the bitmap marks exactly the
/// blocks before the data region as used, every slot of the inode table holds the
/// empty record, and every other byte of those blocks is zero.
pub open spec fn formatted(d: Seq<u8>, n: u16) -> bool {
    let sb = layout_of(n);
    &&& n as int * 1024 <= d.len()
    &&& block_of(d, 0) == sb_encode(sb)
    &&& bitmap_initialized(d, sb)
    &&& table_initialized(d, sb)
    &&& forall|k: int|
        sb.first_inode_block * 1024 + sb.total_inodes * 64 <= k < n as int * 1024 ==> #[trigger] d[k]
            == 0u8
}

/// Formatting overwrites whatever the device held: two images formatted for `n`
/// blocks agree on every byte of those blocks.
pub proof fn lemma_format_overwrites(d1: Seq<u8>, d2: Seq<u8>, n: u16)
    requires
        layout_fits(n as nat),
        formatted(d1, n),
        formatted(d2, n),
    ensures
        d1.subrange(0, n as int * 1024) == d2.subrange(0, n as int * 1024),
{
    let sb = layout_of(n);
    let tend = sb.first_inode_block * 1024 + sb.total_inodes * 64;
    assert forall|k: int| 0 <= k < n as int * 1024 implies d1[k] == d2[k] by {
        if k < 1024 {
            assert(block_of(d1, 0)[k] == block_of(d2, 0)[k]);
        } else if k < (sb.last_bitmap_block + 1) * 1024 {
            assert forall|i: u8| i < 8 implies ((d1[k] & (128u8 >> i) != 0) == (d2[k] & (128u8 >> i)
                != 0)) by {
                let p = ((k - 1024) * 8 + i) as u16;
                assert(p as int == (k - 1024) * 8 + i);
                lemma_bit_byte_offset(p);
                assert(bit_byte_offset(p) == k);
                assert(bit_mask(p) == 128u8 >> i);
                assert(block_used(d1, p) == block_used(d2, p));
            }
            lemma_bits_determine_byte(d1[k], d2[k]);
        } else if k < tend {
        } else {
        }
    }
    assert(d1.subrange(0, n as int * 1024) =~= d2.subrange(0, n as int * 1024));
}

pub struct FileCore;

impl FileCore {
    /// Formats the first `total_blocks` blocks of the device: zeroes them, writes
    /// the superblock, then the bitmap, then the inode table. Blocks from
    /// `total_blocks` on are left as they are. Fails with `UnexpectedEnd`, leaving
    /// the device unchanged, where the device has fewer than `total_blocks` blocks.
    pub fn init(device: &mut Device, total_blocks: u16) -> (r: Result<(), FsError>)
        requires
            old(device).wf(),
            layout_fits(total_blocks as nat),
        ensures
            final(device).wf(),
            final(device).spec_num_blocks() == old(device).spec_num_blocks(),
            r is Ok <==> total_blocks as nat <= old(device).spec_num_blocks(),
            r is Err ==> r == Err::<(), FsError>(FsError::UnexpectedEnd) && final(device)@ == old(device)@,
            r is Ok ==> formatted(final(device)@, total_blocks),
            r is Ok ==> sb_decode(block_of(final(device)@, 0)) == layout_of(total_blocks),
            r is Ok ==> sb_decode(block_of(final(device)@, 0)).free_blocks == total_blocks - 1
                - bitmap_blocks(total_blocks as nat) - inode_table_blocks(total_blocks as nat),
            r is Ok ==> forall|p: u16|
                p < total_blocks ==> #[trigger] block_used(final(device)@, p) == (p
                    < layout_of(total_blocks).first_data_block),
            r is Ok ==> forall|k: int|
                total_blocks as int * 1024 <= k < old(device)@.len() ==> #[trigger] final(device)@[k]
                    == old(device)@[k],
    {
        if total_blocks > device.num_blocks() {
            return Err(FsError::UnexpectedEnd);
        }
        let ghost d0 = device@;
        let ghost n = total_blocks as int;
        let zero: Vec<u8> = vec![0u8; 1024];
        assert(zero@ =~= Seq::new(1024, |k: int| 0u8));
        let mut i: u16 = 0;
        while i < total_blocks
            invariant
                i <= total_blocks,
                total_blocks <= device.spec_num_blocks(),
                device.wf(),
                device.spec_num_blocks() == old(device).spec_num_blocks(),
                d0 == old(device)@,
                device@.len() == d0.len(),
                zero@ == Seq::new(1024, |k: int| 0u8),
                forall|k: int|
                    0 <= k < d0.len() ==> #[trigger] device@[k] == (if k < i * 1024 {
                        0u8
                    } else {
                        d0[k]
                    }),
            decreases total_blocks - i,
        {
            let ghost before = device@;
            let _ = device.write_block(i, &zero);
            proof {
                assert forall|k: int| 0 <= k < d0.len() implies #[trigger] device@[k] == (if k < (i
                    + 1) * 1024 {
                    0u8
                } else {
                    d0[k]
                }) by {
                    assert(device@[k] == overwrite(before, i * 1024, zero@)[k]);
                    assert(before[k] == (if k < i * 1024 {
                        0u8
                    } else {
                        d0[k]
                    }));
                }
            }
            i = i + 1;
        }
        let ghost dz = device@;
        let ghost sb = layout_of(total_blocks);
        let _ = Superblock::init(device, total_blocks);
        let ghost d1 = device@;
        proof {
            lemma_sb_decode_encode(sb);
            lemma_layout_consistent(total_blocks);
            assert(block_of(d1, 0) =~= sb_encode(sb));
        }
        let _ = Bitmap::init(device);
        let ghost d2 = device@;
        proof {
            assert(block_of(d2, 0) =~= block_of(d1, 0)) by {
                assert forall|k: int| 0 <= k < 1024 implies d2[k] == d1[k] by {
                    assert(outside_bitmap(sb, k));
                }
            }
        }
        let _ = Inode::init_inode_array(device);
        proof {
            let d3 = device@;
            let tend = sb.first_inode_block * 1024 + sb.total_inodes * 64;
            let ti = sb.total_inodes as int;
            let ib = inode_table_blocks(total_blocks as nat) as int;
            assert(ib == (ti * 64 + 1023) / 1024);
            assert(ti * 64 <= ib * 1024) by (nonlinear_arith)
                requires
                    ib == (ti * 64 + 1023) / 1024,
            ;
            assert(tend <= (sb.last_inode_block + 1) * 1024);
            assert(block_of(d3, 0) =~= block_of(d2, 0)) by {
                assert forall|k: int| 0 <= k < 1024 implies d3[k] == d2[k] by {
                    assert(outside_records(sb, k));
                }
            }
            assert forall|p: u16| (p as int) < sb.last_bitmap_block * 8192 implies #[trigger] block_used(
                d3,
                p,
            ) == (p < sb.first_data_block) by {
                lemma_bit_byte_offset(p);
                assert(outside_records(sb, bit_byte_offset(p)));
                assert(block_used(d2, p) == (p < sb.first_data_block));
            }
            assert forall|k: int| tend <= k < n * 1024 implies #[trigger] d3[k] == 0u8 by {
                assert(outside_records(sb, k));
                assert(outside_bitmap(sb, k));
                assert(dz[k] == 0u8);
            }
            assert forall|k: int| n * 1024 <= k < d0.len() implies #[trigger] d3[k] == d0[k] by {
                assert(outside_records(sb, k));
                assert(outside_bitmap(sb, k));
                assert(dz[k] == d0[k]);
            }
        }
        Ok(())
    }
}

} // verus!
