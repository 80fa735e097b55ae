//! The block device backing the filesystem: a fixed number of fixed-size
//! blocks, each read and written whole. This one keeps its blocks in memory;
//! the filesystem above reaches it only through the block cache, so a driver
//! for a physical medium could stand in its place.
use vstd::prelude::*;

use crate::BLOCK_SZ;

verus! {

/// A block-granularity storage device.
pub struct BlockDevice {
    pub blocks: Vec<Vec<u8>>,
}

impl BlockDevice {
    /// Every block present and exactly one block long.
    pub open spec fn wf(&self) -> bool {
        forall|i: int| 0 <= i < self.blocks@.len() ==> (#[trigger] self.blocks@[i])@.len()
            == BLOCK_SZ
    }

    /// The bytes of the device, one sequence per block.
    pub open spec fn view(&self) -> Seq<Seq<u8>> {
        Seq::new(self.blocks@.len() as nat, |i: int| self.blocks@[i]@)
    }

    /// A device of `num_blocks` zeroed blocks.
    pub fn new(num_blocks: usize) -> (r: BlockDevice)
        ensures
            r.wf(),
            r.view().len() == num_blocks,
            forall|i: int, j: int|
                0 <= i < num_blocks && 0 <= j < BLOCK_SZ ==> #[trigger] r.view()[i][j] == 0u8,
    {
        let mut blocks: Vec<Vec<u8>> = Vec::new();
        let mut i: usize = 0;
        while i < num_blocks
            invariant
                i <= num_blocks,
                blocks@.len() == i,
                forall|k: int| 0 <= k < i ==> (#[trigger] blocks@[k])@.len() == BLOCK_SZ,
                forall|k: int, j: int|
                    0 <= k < i && 0 <= j < BLOCK_SZ ==> #[trigger] blocks@[k]@[j] == 0u8,
            decreases num_blocks - i,
        {
            let mut b: Vec<u8> = Vec::new();
            let mut j: usize = 0;
            while j < BLOCK_SZ
                invariant
                    j <= BLOCK_SZ,
                    b@.len() == j,
                    forall|k: int| 0 <= k < j ==> b@[k] == 0u8,
                decreases BLOCK_SZ - j,
            {
                b.push(0u8);
                j += 1;
            }
            blocks.push(b);
            i += 1;
        }
        BlockDevice { blocks }
    }

    /// Number of blocks.
    pub fn num_blocks(&self) -> (r: usize)
        ensures
            r == self.view().len(),
    {
        self.blocks.len()
    }

    /// read_block: copy block `block_id` out of the device.
    pub fn read_block(&self, block_id: usize) -> (r: Vec<u8>)
        requires
            self.wf(),
            block_id < self.view().len(),
        ensures
            r@ == self.view()[block_id as int],
            r@.len() == BLOCK_SZ,
    {
        let src = &self.blocks[block_id];
        let mut out: Vec<u8> = Vec::new();
        let mut j: usize = 0;
        while j < BLOCK_SZ
            invariant
                j <= BLOCK_SZ,
                src@.len() == BLOCK_SZ,
                out@ == src@.take(j as int),
            decreases BLOCK_SZ - j,
        {
            out.push(src[j]);
            proof {
                assert(out@ == src@.take(j + 1 as int));
            }
            j += 1;
        }
        proof {
            assert(src@.take(BLOCK_SZ as int) == src@);
        }
        out
    }

    /// write_block: replace block `block_id` with `data`.
    pub fn write_block(&mut self, block_id: usize, data: &Vec<u8>)
        requires
            old(self).wf(),
            block_id < old(self).view().len(),
            data@.len() == BLOCK_SZ,
        ensures
            final(self).wf(),
            final(self).view() == old(self).view().update(block_id as int, data@),
    {
        let mut copy: Vec<u8> = Vec::new();
        let mut j: usize = 0;
        while j < BLOCK_SZ
            invariant
                j <= BLOCK_SZ,
                data@.len() == BLOCK_SZ,
                copy@ == data@.take(j as int),
            decreases BLOCK_SZ - j,
        {
            copy.push(data[j]);
            proof {
                assert(copy@ == data@.take(j + 1 as int));
            }
            j += 1;
        }
        proof {
            assert(data@.take(BLOCK_SZ as int) == data@);
        }
        self.blocks.set(block_id, copy);
        proof {
            assert(final(self).view() =~= old(self).view().update(block_id as int, data@));
        }
    }
}

} // verus!
