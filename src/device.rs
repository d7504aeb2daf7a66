use vstd::prelude::*;

verus! {

/// Size of one block, in bytes.
pub const BLOCK_SIZE: u16 = 1024;

/// Errors of the block device and of the on-disk structures kept on it.
#[derive(Debug, Clone, Copy, PartialEq, Eq, Structural)]
pub enum FsError {
    /// A block beyond the end of the device was addressed.
    UnexpectedEnd,
    /// Block 0 does not hold a superblock whose regions are laid out as formatting lays them out.
    LayoutInconsistent,
}

/// The bytes of block `i` of the image `d`.
pub open spec fn block_of(d: Seq<u8>, i: int) -> Seq<u8> {
    d.subrange(i * 1024, i * 1024 + 1024)
}

/// `d` with the bytes from `start` on replaced by `b`; its length is kept.
pub open spec fn overwrite(d: Seq<u8>, start: int, b: Seq<u8>) -> Seq<u8> {
    Seq::new(d.len(), |k: int| if start <= k < start + b.len() { b[k - start] } else { d[k] })
}

/// A block device held in memory: `num_blocks` blocks of `BLOCK_SIZE` bytes each,
/// stored one after another.
pub struct Device {
    num_blocks: u16,
    data: Vec<u8>,
}

impl View for Device {
    type V = Seq<u8>;

    closed spec fn view(&self) -> Seq<u8> {
        self.data@
    }
}

impl Device {
    /// Size of one block, in bytes.
    pub const BLOCK_SIZE: u16 = 1024;

    /// Number of blocks of the device.
    pub closed spec fn spec_num_blocks(&self) -> nat {
        self.num_blocks as nat
    }

    /// The image holds exactly `num_blocks` blocks, each addressable by a `u16`.
    pub open spec fn wf(&self) -> bool {
        self@.len() == self.spec_num_blocks() * 1024 && self.spec_num_blocks() <= u16::MAX
    }

    /// A device of `num_blocks` blocks, every byte zero.
    pub fn new(num_blocks: u16) -> (r: Device)
        ensures
            r.wf(),
            r.spec_num_blocks() == num_blocks as nat,
            r@ == Seq::new(num_blocks as nat * 1024, |k: int| 0u8),
    {
        let len: usize = num_blocks as usize * 1024;
        let mut data: Vec<u8> = Vec::with_capacity(len);
        let mut k: usize = 0;
        while k < len
            invariant
                k <= len,
                len == num_blocks as nat * 1024,
                data@ == Seq::new(k as nat, |j: int| 0u8),
            decreases len - k,
        {
            data.push(0u8);
            k = k + 1;
            assert(data@ =~= Seq::new(k as nat, |j: int| 0u8));
        }
        assert(data@ =~= Seq::new(num_blocks as nat * 1024, |j: int| 0u8));
        Device { num_blocks, data }
    }

    /// Number of blocks of the device.
    pub fn num_blocks(&self) -> (r: u16)
        ensures
            r as nat == self.spec_num_blocks(),
    {
        self.num_blocks
    }

    /// Copies block `index` into `buf`. Fails with `UnexpectedEnd`, leaving `buf`
    /// unchanged, when the device has no such block.
    pub fn read_block(&self, index: u16, buf: &mut Vec<u8>) -> (r: Result<(), FsError>)
        requires
            self.wf(),
            old(buf)@.len() == 1024,
        ensures
            r is Ok <==> (index as nat) < self.spec_num_blocks(),
            r is Ok ==> final(buf)@ == block_of(self@, index as int),
            r is Err ==> r == Err::<(), FsError>(FsError::UnexpectedEnd) && final(buf)@ == old(buf)@,
    {
        if index >= self.num_blocks {
            return Err(FsError::UnexpectedEnd);
        }
        let start: usize = index as usize * 1024;
        let mut k: usize = 0;
        while k < 1024
            invariant
                k <= 1024,
                start == index as nat * 1024,
                start + 1024 <= self@.len(),
                buf@.len() == 1024,
                forall|j: int| 0 <= j < k ==> buf@[j] == self@[start + j],
            decreases 1024 - k,
        {
            buf[k] = self.data[start + k];
            k = k + 1;
        }
        assert(buf@ =~= block_of(self@, index as int));
        Ok(())
    }

    /// Stores `buf` as block `index`. Fails with `UnexpectedEnd`, leaving the device
    /// unchanged, when the device has no such block.
    pub fn write_block(&mut self, index: u16, buf: &Vec<u8>) -> (r: Result<(), FsError>)
        requires
            old(self).wf(),
            buf@.len() == 1024,
        ensures
            final(self).wf(),
            final(self).spec_num_blocks() == old(self).spec_num_blocks(),
            r is Ok <==> (index as nat) < old(self).spec_num_blocks(),
            r is Ok ==> final(self)@ == overwrite(old(self)@, index as int * 1024, buf@),
            r is Err ==> r == Err::<(), FsError>(FsError::UnexpectedEnd) && final(self)@ == old(self)@,
    {
        if index >= self.num_blocks {
            return Err(FsError::UnexpectedEnd);
        }
        let start: usize = index as usize * 1024;
        let ghost before = self@;
        let mut k: usize = 0;
        while k < 1024
            invariant
                k <= 1024,
                start == index as nat * 1024,
                start + 1024 <= before.len(),
                buf@.len() == 1024,
                self.num_blocks == old(self).num_blocks,
                self@.len() == before.len(),
                before == old(self)@,
                forall|j: int|
                    0 <= j < self@.len() ==> #[trigger] self@[j] == (if start <= j < start + k {
                        buf@[j - start]
                    } else {
                        before[j]
                    }),
            decreases 1024 - k,
        {
            self.data[start + k] = buf[k];
            k = k + 1;
        }
        assert(self@ =~= overwrite(before, index as int * 1024, buf@));
        Ok(())
    }
}

} // verus!
