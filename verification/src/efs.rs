//! The filesystem allocator: the single owner of the block cache, the free
//! maps for inode slots and data blocks, and the geometry that places an
//! inode number at its (block, offset) on disk. Every structural change -
//! allocating or freeing an inode or a data block - goes through this one
//! object.
use vstd::prelude::*;

use vstd::bytes::u32_to_le_bytes;

use crate::BLOCK_SZ;
use crate::block_cache::BlockCache;
use crate::block_dev::BlockDevice;
use crate::layout::DiskInode;
use crate::layout::DiskInodeType;
use crate::layout::INODE_SZ;
use crate::layout::INODES_PER_BLOCK;
use crate::layout::spec_inode_valid_at;
use crate::layout::spec_inode_matches;

verus! {

/// Magic number of the on-disk format, first word of the superblock.
pub const EFS_MAGIC: u32 = 0x45465331;

/// Index of the first bit of `s` that is clear, or -1.
pub open spec fn first_free(s: Seq<bool>) -> int
    decreases s.len(),
{
    if s.len() == 0 {
        -1
    } else if !s[0] {
        0
    } else {
        let r = first_free(s.drop_first());
        if r == -1 {
            -1
        } else {
            r + 1
        }
    }
}

/// Number of clear bits of `s`.
pub open spec fn count_free(s: Seq<bool>) -> int
    decreases s.len(),
{
    if s.len() == 0 {
        0
    } else {
        (if !s[0] {
            1int
        } else {
            0int
        }) + count_free(s.drop_first())
    }
}

/// Where a clear bit exists, `first_free` lands on one; where none does, it
/// is -1; and it never moves past a clear bit.
pub proof fn lemma_first_free_props(s: Seq<bool>)
    ensures
        -1 <= first_free(s) < s.len(),
        first_free(s) >= 0 ==> !s[first_free(s)],
        first_free(s) >= 0 ==> forall|j: int| 0 <= j < first_free(s) ==> s[j],
        first_free(s) == -1 ==> forall|j: int| 0 <= j < s.len() ==> s[j],
        count_free(s) > 0 ==> first_free(s) >= 0,
    decreases s.len(),
{
    if s.len() > 0 && s[0] {
        lemma_first_free_props(s.drop_first());
        assert forall|j: int| 1 <= j < s.len() implies s.drop_first()[j - 1] == s[j] by {}
    }
}

/// If the bits below `i` are set and bit `i` (when present) is clear,
/// `first_free` returns `i`, or -1 when `i` is the length.
pub proof fn lemma_first_free_at(s: Seq<bool>, i: int)
    requires
        0 <= i <= s.len(),
        forall|j: int| 0 <= j < i ==> s[j],
        i < s.len() ==> !s[i],
    ensures
        first_free(s) == if i == s.len() {
            -1int
        } else {
            i
        },
    decreases i,
{
    if i > 0 {
        assert forall|j: int| 0 <= j < i - 1 implies s.drop_first()[j] by {
            assert(s.drop_first()[j] == s[j + 1]);
        }
        assert(i - 1 < s.drop_first().len() ==> s.drop_first()[i - 1] == s[i]);
        lemma_first_free_at(s.drop_first(), i - 1);
    }
}

/// Setting a clear bit lowers the number of clear bits by one; clearing a
/// set bit raises it by one.
pub proof fn lemma_count_free_update(s: Seq<bool>, i: int, v: bool)
    requires
        0 <= i < s.len(),
        s[i] != v,
    ensures
        count_free(s.update(i, v)) == count_free(s) + (if v {
            -1int
        } else {
            1int
        }),
    decreases s.len(),
{
    let s2 = s.update(i, v);
    if i == 0 {
        assert(s2[0] == v);
        assert(s2.drop_first() =~= s.drop_first());
        assert(count_free(s2) == (if !v {
            1int
        } else {
            0int
        }) + count_free(s2.drop_first()));
        assert(count_free(s) == (if !s[0] {
            1int
        } else {
            0int
        }) + count_free(s.drop_first()));
    } else {
        assert(s2[0] == s[0]);
        assert(s2.drop_first() =~= s.drop_first().update(i - 1, v));
        assert(s.drop_first()[i - 1] == s[i]);
        lemma_count_free_update(s.drop_first(), i - 1, v);
        assert(count_free(s2) == (if !s2[0] {
            1int
        } else {
            0int
        }) + count_free(s2.drop_first()));
        assert(count_free(s) == (if !s[0] {
            1int
        } else {
            0int
        }) + count_free(s.drop_first()));
    }
}

/// Appending a bit adds one free slot when it is clear and none when set.
pub proof fn lemma_count_free_push(s: Seq<bool>, b: bool)
    ensures
        count_free(s.push(b)) == count_free(s) + (if b {
            0int
        } else {
            1int
        }),
    decreases s.len(),
{
    let s2 = s.push(b);
    if s.len() == 0 {
        assert(s2.len() == 1);
        assert(s2[0] == b);
        assert(s2.drop_first() =~= Seq::<bool>::empty());
        assert(count_free(s2) == (if !b {
            1int
        } else {
            0int
        }) + count_free(s2.drop_first()));
        assert(count_free(s2.drop_first()) == 0);
    } else {
        assert(s2[0] == s[0]);
        assert(s2.drop_first() =~= s.drop_first().push(b));
        lemma_count_free_push(s.drop_first(), b);
        assert(count_free(s2) == (if !s2[0] {
            1int
        } else {
            0int
        }) + count_free(s2.drop_first()));
        assert(count_free(s) == (if !s[0] {
            1int
        } else {
            0int
        }) + count_free(s.drop_first()));
    }
}

/// The filesystem allocator and layout: block 0 is the superblock, then the
/// inode free-map area, the inode area, the data free-map area, and the data
/// blocks out to the end of the device. The free maps are worked on in
/// memory.
pub struct EasyFileSystem {
    pub cache: BlockCache,
    pub inode_bitmap: Vec<bool>,
    pub data_bitmap: Vec<bool>,
    pub inode_area_start_block: u32,
    pub data_area_start_block: u32,
    pub inode_count: u32,
}

impl EasyFileSystem {
    /// The bytes of every block as the filesystem sees them.
    pub open spec fn view(&self) -> Seq<Seq<u8>> {
        self.cache.view()
    }

    /// Structural soundness: a sound cache and a geometry whose areas fit
    /// the device in order.
    pub open spec fn wf(&self) -> bool {
        &&& self.cache.wf()
        &&& self.inode_bitmap@.len() == self.inode_count
        &&& self.inode_count >= 1
        &&& 1 <= self.inode_area_start_block
        &&& self.inode_area_start_block + (self.inode_count + INODES_PER_BLOCK - 1)
            / (INODES_PER_BLOCK as int) <= self.data_area_start_block
        &&& self.data_area_start_block >= 1
        &&& self.data_area_start_block <= self.view().len()
        &&& self.data_bitmap@.len() == self.view().len() - self.data_area_start_block
        &&& self.view().len() <= u32::MAX
    }

    /// Block and byte offset of inode `inode_id`'s record.
    pub open spec fn spec_inode_pos(&self, inode_id: u32) -> (int, int) {
        (
            self.inode_area_start_block + inode_id / (INODES_PER_BLOCK as u32),
            (inode_id % (INODES_PER_BLOCK as u32)) * (INODE_SZ as u32),
        )
    }

    /// Inode number of the record at (`block_id`, `block_offset`).
    pub open spec fn spec_inode_id(&self, block_id: int, block_offset: int) -> int {
        (block_id - self.inode_area_start_block) * (INODES_PER_BLOCK as int) + block_offset / (
        INODE_SZ as int)
    }

    /// get_disk_inode_pos: where inode `inode_id`'s record lives.
    pub fn get_disk_inode_pos(&self, inode_id: u32) -> (r: (u32, usize))
        requires
            self.wf(),
            inode_id < self.inode_count,
        ensures
            r.0 == self.spec_inode_pos(inode_id).0,
            r.1 == self.spec_inode_pos(inode_id).1,
            self.inode_area_start_block <= r.0 < self.data_area_start_block,
            r.1 + INODE_SZ <= BLOCK_SZ,
            r.1 as int % (INODE_SZ as int) == 0,
    {
        let block_id = self.inode_area_start_block + inode_id / INODES_PER_BLOCK as u32;
        let block_offset = (inode_id % INODES_PER_BLOCK as u32) as usize * INODE_SZ;
        (block_id, block_offset)
    }

    /// get_disk_inode_id: which inode number the record at (`block_id`,
    /// `block_offset`) carries.
    pub fn get_disk_inode_id(&self, block_id: u32, block_offset: usize) -> (r: u32)
        requires
            self.wf(),
            self.inode_area_start_block <= block_id < self.data_area_start_block,
            block_offset < BLOCK_SZ,
            self.spec_inode_id(block_id as int, block_offset as int) < self.inode_count,
        ensures
            r == self.spec_inode_id(block_id as int, block_offset as int),
    {
        (block_id - self.inode_area_start_block) * INODES_PER_BLOCK as u32 + (block_offset
            / INODE_SZ) as u32
    }

    /// Allocator inverse: for every valid inode number, reading the inode
    /// number back from its record position gives the number again.
    pub proof fn lemma_inode_pos_id_inverse(&self, inode_id: u32)
        requires
            self.wf(),
            inode_id < self.inode_count,
        ensures
            self.spec_inode_id(
                self.spec_inode_pos(inode_id).0,
                self.spec_inode_pos(inode_id).1,
            ) == inode_id,
    {
        let q = inode_id / (INODES_PER_BLOCK as u32);
        let m = inode_id % (INODES_PER_BLOCK as u32);
        assert(m < 4);
        assert(((m as int) * (INODE_SZ as int)) / (INODE_SZ as int) == m as int)
            by (nonlinear_arith)
            requires
                m < 4,
        ;
    }

    /// alloc_inode: claim the lowest free inode slot. Exhaustion is the
    /// caller's to rule out: the filesystem has no recoverable out-of-space
    /// answer.
    pub fn alloc_inode(&mut self) -> (r: u32)
        requires
            old(self).wf(),
            count_free(old(self).inode_bitmap@) > 0,
        ensures
            final(self).wf(),
            r == first_free(old(self).inode_bitmap@),
            r < old(self).inode_count,
            !old(self).inode_bitmap@[r as int],
            final(self).inode_bitmap@ == old(self).inode_bitmap@.update(r as int, true),
            count_free(final(self).inode_bitmap@) == count_free(old(self).inode_bitmap@) - 1,
            final(self).cache == old(self).cache,
            final(self).data_bitmap@ == old(self).data_bitmap@,
            final(self).inode_area_start_block == old(self).inode_area_start_block,
            final(self).data_area_start_block == old(self).data_area_start_block,
            final(self).inode_count == old(self).inode_count,
    {
        let n = self.inode_bitmap.len();
        let mut i: usize = 0;
        while i < n
            invariant
                n == self.inode_bitmap@.len(),
                i <= n,
                self == old(self),
                self.wf(),
                forall|j: int| 0 <= j < i ==> old(self).inode_bitmap@[j],
            decreases n - i,
        {
            if !self.inode_bitmap[i] {
                self.inode_bitmap.set(i, true);
                proof {
                    lemma_first_free_at(old(self).inode_bitmap@, i as int);
                    lemma_count_free_update(old(self).inode_bitmap@, i as int, true);
                }
                return i as u32;
            }
            i += 1;
        }
        proof {
            lemma_first_free_at(old(self).inode_bitmap@, n as int);
            lemma_first_free_props(old(self).inode_bitmap@);
            assert(false);
        }
        0
    }

    /// alloc_data: claim the lowest free data block; its absolute block
    /// number comes back. Exhaustion is the caller's to rule out.
    pub fn alloc_data(&mut self) -> (r: u32)
        requires
            old(self).wf(),
            count_free(old(self).data_bitmap@) > 0,
        ensures
            final(self).wf(),
            old(self).data_area_start_block <= r < old(self).view().len(),
            r == old(self).data_area_start_block + first_free(old(self).data_bitmap@),
            !old(self).data_bitmap@[r - old(self).data_area_start_block],
            final(self).data_bitmap@ == old(self).data_bitmap@.update(
                r - old(self).data_area_start_block,
                true,
            ),
            count_free(final(self).data_bitmap@) == count_free(old(self).data_bitmap@) - 1,
            final(self).cache == old(self).cache,
            final(self).inode_bitmap@ == old(self).inode_bitmap@,
            final(self).inode_area_start_block == old(self).inode_area_start_block,
            final(self).data_area_start_block == old(self).data_area_start_block,
            final(self).inode_count == old(self).inode_count,
    {
        let n = self.data_bitmap.len();
        let mut i: usize = 0;
        while i < n
            invariant
                n == self.data_bitmap@.len(),
                i <= n,
                self == old(self),
                self.wf(),
                forall|j: int| 0 <= j < i ==> old(self).data_bitmap@[j],
            decreases n - i,
        {
            if !self.data_bitmap[i] {
                self.data_bitmap.set(i, true);
                proof {
                    lemma_first_free_at(old(self).data_bitmap@, i as int);
                    lemma_count_free_update(old(self).data_bitmap@, i as int, true);
                }
                return self.data_area_start_block + i as u32;
            }
            i += 1;
        }
        proof {
            lemma_first_free_at(old(self).data_bitmap@, n as int);
            lemma_first_free_props(old(self).data_bitmap@);
            assert(false);
        }
        0
    }

    /// dealloc_data: return a data block to the free set. A double free is
    /// a caller bug, ruled out here rather than checked at run time.
    pub fn dealloc_data(&mut self, block_id: u32)
        requires
            old(self).wf(),
            old(self).data_area_start_block <= block_id,
            (block_id as int) < old(self).view().len(),
            old(self).data_bitmap@[block_id - old(self).data_area_start_block],
        ensures
            final(self).wf(),
            final(self).data_bitmap@ == old(self).data_bitmap@.update(
                block_id - old(self).data_area_start_block,
                false,
            ),
            count_free(final(self).data_bitmap@) == count_free(old(self).data_bitmap@) + 1,
            final(self).cache == old(self).cache,
            final(self).inode_bitmap@ == old(self).inode_bitmap@,
            final(self).inode_area_start_block == old(self).inode_area_start_block,
            final(self).data_area_start_block == old(self).data_area_start_block,
            final(self).inode_count == old(self).inode_count,
    {
        let idx = (block_id - self.data_area_start_block) as usize;
        self.data_bitmap.set(idx, false);
        proof {
            lemma_count_free_update(
                old(self).data_bitmap@,
                block_id - old(self).data_area_start_block,
                false,
            );
        }
    }
}

impl EasyFileSystem {
    /// create: format a fresh filesystem over a zeroed in-memory device of
    /// `total_blocks` blocks with room for `inode_count` inodes: superblock,
    /// free-map areas, the inode area, and the root directory at inode 0,
    /// all flushed to the device.
    pub fn create(total_blocks: u32, inode_count: u32) -> (r: EasyFileSystem)
        requires
            1 <= inode_count,
            inode_count <= 1000000,
            total_blocks <= 1000000,
            1 + (inode_count + 4095) / 4096 + (inode_count + 3) / 4 + 2 <= total_blocks,
        ensures
            r.wf(),
            r.inode_count == inode_count,
            r.view().len() == total_blocks,
            spec_inode_valid_at(r.view(), r.spec_inode_pos(0).0, r.spec_inode_pos(0).1),
            crate::layout::spec_tag_at(r.view(), r.spec_inode_pos(0).0, r.spec_inode_pos(0).1)
                == 1u8,
            crate::layout::spec_size_at(r.view(), r.spec_inode_pos(0).0, r.spec_inode_pos(0).1)
                == 0u32,
            crate::layout::spec_nlinks_at(r.view(), r.spec_inode_pos(0).0, r.spec_inode_pos(0).1)
                == 1u32,
            r.inode_bitmap@.len() == inode_count,
            r.inode_bitmap@[0] == true,
            forall|j: int| 1 <= j < inode_count ==> !r.inode_bitmap@[j],
            forall|j: int| 0 <= j < r.data_bitmap@.len() ==> !r.data_bitmap@[j],
            r.cache.device.view() == r.view(),
    {
        let inode_bitmap_blocks = (inode_count + 4095) / 4096;
        let inode_area_blocks = (inode_count + 3) / 4;
        let inode_area_start_block = 1 + inode_bitmap_blocks;
        let data_bitmap_start = inode_area_start_block + inode_area_blocks;
        let rem = total_blocks - data_bitmap_start;
        let data_bitmap_blocks = (rem + 4096) / 4097;
        let data_area_start_block = data_bitmap_start + data_bitmap_blocks;

        let device = BlockDevice::new(total_blocks as usize);
        let mut cache = BlockCache::new(device);

        // superblock: magic, totals and extents, little-endian
        let mut sb = u32_to_le_bytes(EFS_MAGIC);
        let mut t1 = u32_to_le_bytes(total_blocks);
        sb.append(&mut t1);
        let mut t2 = u32_to_le_bytes(inode_bitmap_blocks);
        sb.append(&mut t2);
        let mut t3 = u32_to_le_bytes(inode_area_blocks);
        sb.append(&mut t3);
        let mut t4 = u32_to_le_bytes(data_bitmap_blocks);
        sb.append(&mut t4);
        cache.write_bytes(0, 0, &sb);

        // free maps, all clear
        let mut inode_bitmap: Vec<bool> = Vec::new();
        let mut i: usize = 0;
        while i < inode_count as usize
            invariant
                i <= inode_count,
                inode_bitmap@.len() == i,
                count_free(inode_bitmap@) == i,
                forall|j: int| 0 <= j < i ==> !inode_bitmap@[j],
            decreases inode_count - i,
        {
            proof {
                lemma_count_free_push(inode_bitmap@, false);
            }
            inode_bitmap.push(false);
            i += 1;
        }
        let data_count = (total_blocks - data_area_start_block) as usize;
        let mut data_bitmap: Vec<bool> = Vec::new();
        let mut k: usize = 0;
        while k < data_count
            invariant
                k <= data_count,
                data_bitmap@.len() == k,
                forall|j: int| 0 <= j < k ==> !data_bitmap@[j],
            decreases data_count - k,
        {
            data_bitmap.push(false);
            k += 1;
        }

        let mut fs = EasyFileSystem {
            cache,
            inode_bitmap,
            data_bitmap,
            inode_area_start_block,
            data_area_start_block,
            inode_count,
        };

        // the root directory lives at inode 0
        let root_id = fs.alloc_inode();
        let (root_bid, root_off) = fs.get_disk_inode_pos(root_id);
        let mut root = DiskInode {
            type_: DiskInodeType::Directory,
            size: 0,
            nlinks: 1,
            blocks: Vec::new(),
            indirect1: 0,
        };
        root.initialize(DiskInodeType::Directory);
        root.store(&mut fs.cache, root_bid as usize, root_off);
        fs.cache.sync_all();
        fs
    }
}

impl EasyFileSystem {
    /// dealloc_inode: return an inode slot to the free set.
    pub fn dealloc_inode(&mut self, inode_id: u32)
        requires
            old(self).wf(),
            inode_id < old(self).inode_count,
            old(self).inode_bitmap@[inode_id as int],
        ensures
            final(self).wf(),
            final(self).inode_bitmap@ == old(self).inode_bitmap@.update(inode_id as int, false),
            count_free(final(self).inode_bitmap@) == count_free(old(self).inode_bitmap@) + 1,
            final(self).cache == old(self).cache,
            final(self).data_bitmap@ == old(self).data_bitmap@,
            final(self).inode_area_start_block == old(self).inode_area_start_block,
            final(self).data_area_start_block == old(self).data_area_start_block,
            final(self).inode_count == old(self).inode_count,
    {
        self.inode_bitmap.set(inode_id as usize, false);
        proof {
            lemma_count_free_update(old(self).inode_bitmap@, inode_id as int, false);
        }
    }
}

impl EasyFileSystem {
    /// The other direction of the allocator inverse: an aligned slot inside
    /// the inode area is exactly where its inode number maps back to.
    pub proof fn lemma_inode_id_pos_inverse(&self, block_id: int, block_offset: int)
        requires
            self.wf(),
            self.inode_area_start_block <= block_id < self.data_area_start_block,
            0 <= block_offset,
            block_offset + INODE_SZ <= BLOCK_SZ,
            block_offset % (INODE_SZ as int) == 0,
        ensures
            self.spec_inode_pos(self.spec_inode_id(block_id, block_offset) as u32).0 == block_id
                || self.spec_inode_id(block_id, block_offset) >= self.inode_count,
            self.spec_inode_id(block_id, block_offset) < self.inode_count ==> {
                &&& self.spec_inode_pos(self.spec_inode_id(block_id, block_offset) as u32).0
                    == block_id
                &&& self.spec_inode_pos(self.spec_inode_id(block_id, block_offset) as u32).1
                    == block_offset
            },
    {
        let q = block_id - self.inode_area_start_block;
        let m = block_offset / (INODE_SZ as int);
        assert(0 <= m < 4);
        assert(block_offset == m * (INODE_SZ as int));
        let id = q * 4 + m;
        if id < self.inode_count {
            assert((q * 4 + m) / 4 == q) by (nonlinear_arith)
                requires
                    0 <= m < 4,
            ;
            assert((q * 4 + m) % 4 == m) by (nonlinear_arith)
                requires
                    0 <= m < 4,
                    q >= 0,
            ;
        }
    }

    /// Two different record slots carry two different inode numbers.
    pub proof fn lemma_inode_id_injective(
        &self,
        abid: int,
        aoff: int,
        bbid: int,
        boff: int,
    )
        requires
            self.wf(),
            self.inode_area_start_block <= abid < self.data_area_start_block,
            self.inode_area_start_block <= bbid < self.data_area_start_block,
            0 <= aoff,
            aoff + INODE_SZ <= BLOCK_SZ,
            aoff % (INODE_SZ as int) == 0,
            0 <= boff,
            boff + INODE_SZ <= BLOCK_SZ,
            boff % (INODE_SZ as int) == 0,
            !(abid == bbid && aoff == boff),
            self.spec_inode_id(abid, aoff) < self.inode_count,
            self.spec_inode_id(bbid, boff) < self.inode_count,
        ensures
            self.spec_inode_id(abid, aoff) != self.spec_inode_id(bbid, boff),
    {
        self.lemma_inode_id_pos_inverse(abid, aoff);
        self.lemma_inode_id_pos_inverse(bbid, boff);
    }
}

impl EasyFileSystem {
    /// root_inode: the handle of the root directory, inode 0.
    pub fn root_inode(&self) -> (r: crate::vfs::Inode)
        requires
            self.wf(),
        ensures
            r.block_id == self.spec_inode_pos(0).0,
            r.block_offset == self.spec_inode_pos(0).1,
    {
        let (bid, off) = self.get_disk_inode_pos(0);
        crate::vfs::Inode::new(bid, off)
    }
}

} // verus!
