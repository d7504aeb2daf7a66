use vstd::prelude::*;
use crate::device::{block_of, overwrite, Device, FsError, BLOCK_SIZE};
use crate::superblock::{layout_consistent, sb_decode, Superblock};

verus! {

/// Number of blocks a bitmap holding one bit for each of `n` blocks occupies.
pub open spec fn bitmap_blocks(n: nat) -> nat {
    (n + 8191) / 8192
}

/// Index, within its bitmap block, of the byte that holds the bit of block `p`.
pub open spec fn byte_in_block(p: u16) -> int {
    ((p % 8192) / 8) as int
}

/// Mask selecting the bit of block `p` within its byte; bits run from the most
/// significant one.
pub open spec fn bit_mask(p: u16) -> u8 {
    128u8 >> (((p % 8192) % 8) as u8)
}

/// The byte `b` with the bit of block `p` set to `value`.
pub open spec fn with_bit(b: u8, value: u8, p: u16) -> u8 {
    if value == 1 {
        b | bit_mask(p)
    } else {
        b & !bit_mask(p)
    }
}

/// Whether the bitmap block `buf` marks block `p` as used.
pub open spec fn bit_is_set(buf: Seq<u8>, p: u16) -> bool {
    buf[byte_in_block(p)] & bit_mask(p) != 0
}

/// The bitmap block `buf` with the bit of block `p` set to `value`.
pub open spec fn set_bit_spec(buf: Seq<u8>, value: u8, p: u16) -> Seq<u8> {
    buf.update(byte_in_block(p), with_bit(buf[byte_in_block(p)], value, p))
}

/// Position on the device of the byte that holds the bit of block `p`: the
/// bitmap starts at block 1.
pub open spec fn bit_byte_offset(p: u16) -> int {
    (1 + p / 8192) * 1024 + byte_in_block(p)
}

/// Whether the image `d` marks block `p` as used in its bitmap.
pub open spec fn block_used(d: Seq<u8>, p: u16) -> bool {
    d[bit_byte_offset(p)] & bit_mask(p) != 0
}

proof fn lemma_mask_bits(b: u8, value: u8, i: u8, j: u8)
    requires
        i < 8,
        j < 8,
        value <= 1,
    ensures
        ((if value == 1 { b | (128u8 >> i) } else { b & !(128u8 >> i) }) & (128u8 >> j) != 0)
            == (if i == j { value == 1 } else { b & (128u8 >> j) != 0 }),
{
    if value == 1 {
        assert((b | (128u8 >> i)) & (128u8 >> j) != 0 <==> (i == j || b & (128u8 >> j) != 0))
            by (bit_vector)
            requires
                i < 8,
                j < 8,
        ;
    } else {
        assert((b & !(128u8 >> i)) & (128u8 >> j) != 0 <==> (i != j && b & (128u8 >> j) != 0))
            by (bit_vector)
            requires
                i < 8,
                j < 8,
        ;
    }
}

/// Setting the bit of `p` to `value` makes it read `value`, and keeps the bit of
/// every block that shares the byte.
pub proof fn lemma_with_bit(b: u8, value: u8, p: u16, q: u16)
    requires
        value <= 1,
    ensures
        (with_bit(b, value, p) & bit_mask(q) != 0) == (if (p % 8192) % 8 == (q % 8192) % 8 {
            value == 1
        } else {
            b & bit_mask(q) != 0
        }),
{
    lemma_mask_bits(b, value, ((p % 8192) % 8) as u8, ((q % 8192) % 8) as u8);
}

/// The bit of block `p` lies in byte `1024 + p / 8` of the image, at position `p % 8`.
pub proof fn lemma_bit_byte_offset(p: u16)
    ensures
        bit_byte_offset(p) == 1024 + p / 8,
        (p % 8192) % 8 == p % 8,
{
}

/// No bit of a zero byte is set.
pub proof fn lemma_zero_byte(p: u16)
    ensures
        0u8 & bit_mask(p) == 0,
{
    let i = ((p % 8192) % 8) as u8;
    assert(0u8 & (128u8 >> i) == 0) by (bit_vector);
}

/// Two bytes whose eight bits agree are equal.
pub proof fn lemma_bits_determine_byte(a: u8, b: u8)
    requires
        forall|i: u8| i < 8 ==> ((a & (128u8 >> i) != 0) == (b & (128u8 >> i) != 0)),
    ensures
        a == b,
{
    assert(a & 128u8 != 0 <==> b & 128u8 != 0) by { assert((128u8 >> 0u8) == 128u8) by (bit_vector); }
    assert(a & 64u8 != 0 <==> b & 64u8 != 0) by { assert((128u8 >> 1u8) == 64u8) by (bit_vector); }
    assert(a & 32u8 != 0 <==> b & 32u8 != 0) by { assert((128u8 >> 2u8) == 32u8) by (bit_vector); }
    assert(a & 16u8 != 0 <==> b & 16u8 != 0) by { assert((128u8 >> 3u8) == 16u8) by (bit_vector); }
    assert(a & 8u8 != 0 <==> b & 8u8 != 0) by { assert((128u8 >> 4u8) == 8u8) by (bit_vector); }
    assert(a & 4u8 != 0 <==> b & 4u8 != 0) by { assert((128u8 >> 5u8) == 4u8) by (bit_vector); }
    assert(a & 2u8 != 0 <==> b & 2u8 != 0) by { assert((128u8 >> 6u8) == 2u8) by (bit_vector); }
    assert(a & 1u8 != 0 <==> b & 1u8 != 0) by { assert((128u8 >> 7u8) == 1u8) by (bit_vector); }
    assert(a == b) by (bit_vector)
        requires
            a & 128u8 != 0 <==> b & 128u8 != 0,
            a & 64u8 != 0 <==> b & 64u8 != 0,
            a & 32u8 != 0 <==> b & 32u8 != 0,
            a & 16u8 != 0 <==> b & 16u8 != 0,
            a & 8u8 != 0 <==> b & 8u8 != 0,
            a & 4u8 != 0 <==> b & 4u8 != 0,
            a & 2u8 != 0 <==> b & 2u8 != 0,
            a & 1u8 != 0 <==> b & 1u8 != 0,
    ;
}

/// Setting the clear bit of `p` and clearing it again gives the bitmap block back
/// unchanged, the other bits of that byte included.
pub proof fn lemma_bit_round_trip(buf: Seq<u8>, p: u16)
    requires
        buf.len() == 1024,
        !bit_is_set(buf, p),
    ensures
        set_bit_spec(set_bit_spec(buf, 1, p), 0, p) == buf,
{
    let i = byte_in_block(p);
    let b = buf[i];
    let k = ((p % 8192) % 8) as u8;
    assert(b & (128u8 >> k) == 0 ==> (b | (128u8 >> k)) & !(128u8 >> k) == b) by (bit_vector)
        requires
            k < 8,
    ;
    assert(set_bit_spec(set_bit_spec(buf, 1, p), 0, p) =~= buf);
}

/// In the image `d`, every bit of the bitmap that `sb` describes marks its block
/// used exactly when the block lies before the data region.
pub open spec fn bitmap_initialized(d: Seq<u8>, sb: Superblock) -> bool {
    forall|p: u16|
        (p as int) < sb.last_bitmap_block * 8192 ==> #[trigger] block_used(d, p) == (p
            < sb.first_data_block)
}

/// Bytes of the image that lie outside the bitmap of `sb`.
pub open spec fn outside_bitmap(sb: Superblock, k: int) -> bool {
    !(1024 <= k < (sb.last_bitmap_block + 1) * 1024)
}

pub struct Bitmap;

impl Bitmap {
    /// Number of blocks used by the bitmap of a device of `total_blocks` blocks:
    /// one bit per block, `BLOCK_SIZE * 8` bits per bitmap block, rounded up.
    pub fn size(total_blocks: u16) -> (r: u16)
        ensures
            r == bitmap_blocks(total_blocks as nat),
    {
        let bits_per_block: u16 = BLOCK_SIZE * 8;
        if total_blocks % bits_per_block == 0 {
            total_blocks / bits_per_block
        } else {
            (total_blocks / bits_per_block) + 1
        }
    }

    /// Sets the bit of block `position` in the bitmap block `buf` to `value`
    /// (1: used, 0: free).
    pub fn set_bit(value: u8, position: u16, buf: &mut Vec<u8>)
        requires
            value <= 1,
            old(buf)@.len() == 1024,
        ensures
            final(buf)@ == set_bit_spec(old(buf)@, value, position),
            bit_is_set(final(buf)@, position) == (value == 1),
            forall|q: u16|
                (q % 8192) != (position % 8192) ==> #[trigger] bit_is_set(final(buf)@, q)
                    == bit_is_set(old(buf)@, q),
    {
        let bits_per_block: u16 = BLOCK_SIZE * 8;
        let byte_position: u16 = (position % bits_per_block) / 8;
        let bit_offset: u16 = (position % bits_per_block) % 8;
        let mut target_byte: u8 = buf[byte_position as usize];
        let mask: u8 = 128u8 >> (bit_offset as u8);
        if value == 1 {
            target_byte = target_byte | mask;
        } else {
            target_byte = target_byte & !mask;
        }
        buf[byte_position as usize] = target_byte;
        proof {
            let old_byte = old(buf)@[byte_in_block(position)];
            lemma_with_bit(old_byte, value, position, position);
            assert forall|q: u16| (q % 8192) != (position % 8192) implies #[trigger] bit_is_set(
                buf@,
                q,
            ) == bit_is_set(old(buf)@, q) by {
                if byte_in_block(q) == byte_in_block(position) {
                    lemma_with_bit(old_byte, value, position, q);
                }
            }
        }
    }

    /// Reads the bitmap block that holds the bit of block `position` into `buf`.
    fn read_bitmap_block(device: &Device, position: u16, buf: &mut Vec<u8>) -> (r: Result<
        (),
        FsError,
    >)
        requires
            device.wf(),
            old(buf)@.len() == 1024,
        ensures
            r is Ok <==> 1 + position / 8192 < device.spec_num_blocks(),
            r is Ok ==> final(buf)@ == block_of(device@, 1 + position / 8192),
            r is Err ==> r == Err::<(), FsError>(FsError::UnexpectedEnd),
    {
        let block: u16 = (position / (BLOCK_SIZE * 8)) + 1;
        device.read_block(block, buf)
    }

    /// Stores `buf` as the bitmap block that holds the bit of block `position`.
    fn write_bitmap_block(device: &mut Device, position: u16, buf: &Vec<u8>) -> (r: Result<
        (),
        FsError,
    >)
        requires
            old(device).wf(),
            buf@.len() == 1024,
        ensures
            final(device).wf(),
            final(device).spec_num_blocks() == old(device).spec_num_blocks(),
            r is Ok <==> 1 + position / 8192 < old(device).spec_num_blocks(),
            r is Ok ==> final(device)@ == overwrite(
                old(device)@,
                (1 + position / 8192) * 1024,
                buf@,
            ),
            r is Err ==> final(device)@ == old(device)@,
    {
        let block: u16 = (position / (BLOCK_SIZE * 8)) + 1;
        device.write_block(block, buf)
    }

    /// Marks block `position` as used (`value` 1) or free (`value` 0) in the bitmap
    /// on the device: one block read, one byte changed, one block write. Fails with
    /// `UnexpectedEnd`, leaving the device unchanged, where the bitmap block that
    /// holds the bit lies beyond the device.
    pub fn write_bit(device: &mut Device, value: u8, position: u16) -> (r: Result<(), FsError>)
        requires
            old(device).wf(),
            value <= 1,
        ensures
            final(device).wf(),
            final(device).spec_num_blocks() == old(device).spec_num_blocks(),
            r is Ok <==> 1 + position / 8192 < old(device).spec_num_blocks(),
            r is Ok ==> final(device)@ == old(device)@.update(
                bit_byte_offset(position),
                with_bit(old(device)@[bit_byte_offset(position)], value, position),
            ),
            r is Err ==> r == Err::<(), FsError>(FsError::UnexpectedEnd) && final(device)@ == old(device)@,
    {
        let mut buf: Vec<u8> = vec![0u8; 1024];
        Self::read_bitmap_block(device, position, &mut buf)?;
        Self::set_bit(value, position, &mut buf);
        Self::write_bitmap_block(device, position, &buf)?;
        assert(device@ =~= old(device)@.update(
            bit_byte_offset(position),
            with_bit(old(device)@[bit_byte_offset(position)], value, position),
        ));
        Ok(())
    }

    /// Clears the bitmap and marks as used every block before the data region:
    /// the superblock, the bitmap and the inode table. Those blocks are not
    /// counted in the superblock's free-block counter, which stays as it is.
    /// Fails where block 0 holds no consistent superblock, or where the bitmap
    /// lies beyond the device, leaving the device unchanged.
    pub fn init(device: &mut Device) -> (r: Result<(), FsError>)
        requires
            old(device).wf(),
        ensures
            final(device).wf(),
            final(device).spec_num_blocks() == old(device).spec_num_blocks(),
            ({
                let sb = sb_decode(block_of(old(device)@, 0));
                if old(device).spec_num_blocks() == 0 {
                    r == Err::<(), FsError>(FsError::UnexpectedEnd)
                } else if !layout_consistent(sb) {
                    r == Err::<(), FsError>(FsError::LayoutInconsistent)
                } else if sb.last_bitmap_block >= old(device).spec_num_blocks() {
                    r == Err::<(), FsError>(FsError::UnexpectedEnd)
                } else {
                    &&& r is Ok
                    &&& bitmap_initialized(final(device)@, sb)
                    &&& forall|k: int|
                        0 <= k < old(device)@.len() && outside_bitmap(sb, k) ==> #[trigger] final(device)@[k]
                            == old(device)@[k]
                }
            }),
            r is Err ==> final(device)@ == old(device)@,
    {
        let sb = Superblock::read(device)?;
        if sb.last_bitmap_block >= device.num_blocks() {
            return Err(FsError::UnexpectedEnd);
        }
        let ghost d0 = device@;
        let zero: Vec<u8> = vec![0u8; 1024];
        assert(zero@ =~= Seq::new(1024, |k: int| 0u8));
        let mut b: u16 = 1;
        while b <= sb.last_bitmap_block
            invariant
                1 <= b <= sb.last_bitmap_block + 1,
                sb.last_bitmap_block < device.spec_num_blocks(),
                device.wf(),
                device.spec_num_blocks() == old(device).spec_num_blocks(),
                d0 == old(device)@,
                device@.len() == d0.len(),
                zero@ == Seq::new(1024, |k: int| 0u8),
                forall|k: int|
                    0 <= k < d0.len() ==> #[trigger] device@[k] == (if 1024 <= k < b * 1024 {
                        0u8
                    } else {
                        d0[k]
                    }),
            decreases sb.last_bitmap_block + 1 - b,
        {
            let ghost before = device@;
            let _ = device.write_block(b, &zero);
            proof {
                assert forall|k: int| 0 <= k < d0.len() implies #[trigger] device@[k] == (if 1024
                    <= k < (b + 1) * 1024 {
                    0u8
                } else {
                    d0[k]
                }) by {
                    assert(device@[k] == overwrite(before, b * 1024, zero@)[k]);
                    assert(before[k] == (if 1024 <= k < b * 1024 {
                        0u8
                    } else {
                        d0[k]
                    }));
                }
            }
            b = b + 1;
        }
        assert(sb.first_data_block <= sb.total_blocks);
        assert(sb.total_blocks <= sb.last_bitmap_block * 8192);
        assert forall|p: u16| (p as int) < sb.last_bitmap_block * 8192 implies #[trigger] block_used(
            device@,
            p,
        ) == (p < 0u16) by {
            lemma_bit_byte_offset(p);
            lemma_zero_byte(p);
        }
        let mut i: u16 = 0;
        while i < sb.first_data_block
            invariant
                i <= sb.first_data_block,
                sb.first_data_block <= sb.total_blocks,
                sb.total_blocks <= sb.last_bitmap_block * 8192,
                sb.last_bitmap_block < device.spec_num_blocks(),
                device.wf(),
                device.spec_num_blocks() == old(device).spec_num_blocks(),
                d0 == old(device)@,
                device@.len() == d0.len(),
                forall|k: int|
                    0 <= k < d0.len() && outside_bitmap(sb, k) ==> #[trigger] device@[k] == d0[k],
                forall|p: u16|
                    (p as int) < sb.last_bitmap_block * 8192 ==> #[trigger] block_used(device@, p)
                        == (p < i),
            decreases sb.first_data_block - i,
        {
            let ghost before = device@;
            let _ = Self::write_bit(device, 1, i);
            proof {
                lemma_bit_byte_offset(i);
                let off = bit_byte_offset(i);
                assert(device@ == before.update(off, with_bit(before[off], 1, i)));
                assert(off < (sb.last_bitmap_block + 1) * 1024);
                assert forall|k: int|
                    0 <= k < d0.len() && outside_bitmap(sb, k) implies #[trigger] device@[k] == d0[k] by {
                    assert(before[k] == d0[k]);
                }
                assert forall|p: u16| (p as int) < sb.last_bitmap_block * 8192 implies #[trigger] block_used(
                    device@,
                    p,
                ) == (p < i + 1) by {
                    lemma_bit_byte_offset(p);
                    assert(block_used(before, p) == (p < i));
                    if p / 8 == i / 8 {
                        lemma_with_bit(before[off], 1, i, p);
                        assert(device@[bit_byte_offset(p)] == with_bit(before[off], 1, i));
                    } else {
                        assert(device@[bit_byte_offset(p)] == before[bit_byte_offset(p)]);
                    }
                }
            }
            i = i + 1;
        }
        Ok(())
    }
}

} // verus!