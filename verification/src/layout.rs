//! The on-disk inode: type tag, byte size, link count, and the block
//! pointers that map a byte offset to a device block - a fixed array of
//! direct pointers plus one indirect block for larger files. The inode is
//! worked on in loaded form, with the full block list in memory; `store`
//! writes the fixed record and the indirect block back through the cache,
//! and `load` reads them back.
use vstd::prelude::*;

use vstd::bytes::spec_u32_to_le_bytes;
use vstd::bytes::spec_u32_from_le_bytes;
use vstd::bytes::lemma_auto_spec_u32_to_from_le_bytes;
use vstd::bytes::u32_to_le_bytes;
use vstd::bytes::u32_from_le_bytes;

use crate::BLOCK_SZ;

verus! {

/// Number of direct block pointers in one inode record.
pub const INODE_DIRECT_COUNT: usize = 27;

/// Number of block pointers held by the indirect block.
pub const INODE_INDIRECT1_COUNT: usize = 128;

/// Largest number of data blocks one inode can address.
pub const INODE_MAX_DATA_BLOCKS: usize = 155;

/// Largest byte size one inode can address.
pub const INODE_MAX_SIZE: u32 = 79360;

/// Size in bytes of one inode record on disk.
pub const INODE_SZ: usize = 128;

/// Inode records per block.
pub const INODES_PER_BLOCK: usize = 4;

/// Type tag of a disk inode.
#[derive(Clone, Copy, PartialEq, Eq, Structural, Debug)]
pub enum DiskInodeType {
    File,
    Directory,
}

/// Number of data blocks holding `size` bytes.
pub open spec fn spec_data_blocks(size: u32) -> int {
    (size + BLOCK_SZ - 1) / (BLOCK_SZ as int)
}

/// Number of blocks an inode of byte size `size` occupies beyond its record:
/// its data blocks, plus the indirect block once the direct pointers run
/// out.
pub open spec fn spec_total_blocks(size: u32) -> int {
    spec_data_blocks(size) + if spec_data_blocks(size) > INODE_DIRECT_COUNT {
        1int
    } else {
        0int
    }
}

/// A disk inode in loaded form: the record's scalar fields and the complete
/// list of data blocks, indirect pointers already resolved.
pub struct DiskInode {
    pub type_: DiskInodeType,
    pub size: u32,
    pub nlinks: u32,
    pub blocks: Vec<u32>,
    pub indirect1: u32,
}

impl DiskInode {
    /// The size/block invariant: exactly the blocks `size` needs are wired,
    /// and the indirect block exists exactly when the direct pointers do not
    /// suffice.
    pub open spec fn wf(&self) -> bool {
        &&& self.size <= INODE_MAX_SIZE
        &&& self.blocks@.len() == spec_data_blocks(self.size)
        &&& (spec_data_blocks(self.size) > INODE_DIRECT_COUNT <==> self.indirect1 != 0)
    }

    /// Size/block invariant, stated over the whole pointer structure: a
    /// sound inode occupies exactly `total_blocks(size)` blocks - its data
    /// blocks plus its indirect block when it has one.
    pub proof fn lemma_size_block_invariant(&self)
        requires
            self.wf(),
        ensures
            self.blocks@.len() + (if self.indirect1 != 0 {
                1int
            } else {
                0int
            }) == spec_total_blocks(self.size),
    {
    }

    /// data_blocks: how many data blocks `size` bytes occupy.
    pub fn data_blocks(size: u32) -> (r: u32)
        ensures
            r == spec_data_blocks(size),
    {
        ((size as u64 + BLOCK_SZ as u64 - 1) / (BLOCK_SZ as u64)) as u32
    }

    /// total_blocks: how many blocks `size` bytes occupy, the indirect
    /// block included.
    pub fn total_blocks(size: u32) -> (r: u32)
        ensures
            r == spec_total_blocks(size),
    {
        let d = Self::data_blocks(size);
        if d > INODE_DIRECT_COUNT as u32 {
            d + 1
        } else {
            d
        }
    }

    /// A fresh inode of the given type: empty, with one link.
    pub fn initialize(&mut self, type_: DiskInodeType)
        ensures
            final(self).type_ == type_,
            final(self).size == 0,
            final(self).nlinks == 1,
            final(self).blocks@.len() == 0,
            final(self).indirect1 == 0,
            final(self).wf(),
    {
        self.type_ = type_;
        self.size = 0;
        self.nlinks = 1;
        self.blocks = Vec::new();
        self.indirect1 = 0;
    }

    /// Whether this inode is a directory.
    pub fn is_dir(&self) -> (r: bool)
        ensures
            r == (self.type_ == DiskInodeType::Directory),
    {
        self.type_ == DiskInodeType::Directory
    }

    /// Whether this inode is a file.
    pub fn is_file(&self) -> (r: bool)
        ensures
            r == (self.type_ == DiskInodeType::File),
    {
        self.type_ == DiskInodeType::File
    }

    /// linknum: the current link count.
    pub fn linknum(&self) -> (r: u32)
        ensures
            r == self.nlinks,
    {
        self.nlinks
    }

    /// linkup: one more directory entry references this inode.
    pub fn linkup(&mut self)
        requires
            old(self).nlinks < u32::MAX,
        ensures
            final(self).nlinks == old(self).nlinks + 1,
            final(self).type_ == old(self).type_,
            final(self).size == old(self).size,
            final(self).blocks@ == old(self).blocks@,
            final(self).indirect1 == old(self).indirect1,
    {
        self.nlinks = self.nlinks + 1;
    }

    /// linkdown: one directory entry referencing this inode is gone; the
    /// remaining count comes back.
    pub fn linkdown(&mut self) -> (r: u32)
        requires
            old(self).nlinks > 0,
        ensures
            final(self).nlinks == old(self).nlinks - 1,
            r == final(self).nlinks,
            final(self).type_ == old(self).type_,
            final(self).size == old(self).size,
            final(self).blocks@ == old(self).blocks@,
            final(self).indirect1 == old(self).indirect1,
    {
        self.nlinks = self.nlinks - 1;
        self.nlinks
    }

    /// blocks_num_needed: how many fresh blocks growing to `new_size`
    /// takes.
    pub fn blocks_num_needed(&self, new_size: u32) -> (r: u32)
        requires
            self.wf(),
            new_size >= self.size,
        ensures
            r == spec_total_blocks(new_size) - spec_total_blocks(self.size),
    {
        Self::total_blocks(new_size) - Self::total_blocks(self.size)
    }

    /// increase_size: extend the inode to `new_size` bytes, wiring exactly
    /// the provided fresh blocks into the pointer structure. When the growth
    /// first crosses the direct-pointer limit, the first provided block
    /// becomes the indirect block and the rest carry data.
    pub fn increase_size(&mut self, new_size: u32, new_blocks: Vec<u32>)
        requires
            old(self).wf(),
            old(self).size <= new_size <= INODE_MAX_SIZE,
            new_blocks@.len() == spec_total_blocks(new_size) - spec_total_blocks(old(self).size),
            forall|i: int| 0 <= i < new_blocks@.len() ==> new_blocks@[i] != 0u32,
        ensures
            final(self).wf(),
            final(self).size == new_size,
            final(self).type_ == old(self).type_,
            final(self).nlinks == old(self).nlinks,
            if spec_data_blocks(old(self).size) <= INODE_DIRECT_COUNT < spec_data_blocks(
                new_size,
            ) {
                final(self).indirect1 == new_blocks@[0] && final(self).blocks@ == old(
                    self,
                ).blocks@ + new_blocks@.skip(1)
            } else {
                final(self).indirect1 == old(self).indirect1 && final(self).blocks@ == old(
                    self,
                ).blocks@ + new_blocks@
            },
    {
        let ghost crossing = spec_data_blocks(old(self).size) <= INODE_DIRECT_COUNT
            < spec_data_blocks(new_size);
        let mut idx: usize = 0;
        let old_data = self.blocks.len();
        let new_data = Self::data_blocks(new_size);
        if old_data <= INODE_DIRECT_COUNT && new_data > INODE_DIRECT_COUNT as u32 {
            self.indirect1 = new_blocks[0];
            idx = 1;
        }
        let ghost start0 = idx as int;
        let n = new_blocks.len();
        while idx < n
            invariant
                n == new_blocks@.len(),
                start0 <= idx <= n,
                start0 == (if crossing {
                    1int
                } else {
                    0int
                }),
                self.size == old(self).size,
                self.type_ == old(self).type_,
                self.nlinks == old(self).nlinks,
                self.indirect1 == (if crossing {
                    new_blocks@[0]
                } else {
                    old(self).indirect1
                }),
                crossing == (spec_data_blocks(old(self).size) <= INODE_DIRECT_COUNT
                    < spec_data_blocks(new_size)),
                self.blocks@ == old(self).blocks@ + new_blocks@.subrange(start0, idx as int),
            decreases n - idx,
        {
            self.blocks.push(new_blocks[idx]);
            proof {
                assert(self.blocks@ =~= old(self).blocks@ + new_blocks@.subrange(
                    start0,
                    idx as int + 1,
                ));
            }
            idx += 1;
        }
        self.size = new_size;
        proof {
            if crossing {
                assert(new_blocks@.subrange(1, n as int) =~= new_blocks@.skip(1));
            } else {
                assert(new_blocks@.subrange(0, n as int) =~= new_blocks@);
            }
        }
    }

    /// decrease_size: shrink the inode to `new_size` bytes, detaching the
    /// data blocks past the new end and, when the direct pointers again
    /// suffice, the indirect block. The detached blocks come back for the
    /// caller to return to the allocator; the inode frees nothing itself.
    pub fn decrease_size(&mut self, new_size: u32) -> (freed: Vec<u32>)
        requires
            old(self).wf(),
            new_size <= old(self).size,
        ensures
            final(self).wf(),
            final(self).size == new_size,
            final(self).type_ == old(self).type_,
            final(self).nlinks == old(self).nlinks,
            final(self).blocks@ == old(self).blocks@.take(spec_data_blocks(new_size)),
            freed@ == old(self).blocks@.skip(spec_data_blocks(new_size)) + (if spec_data_blocks(
                old(self).size,
            ) > INODE_DIRECT_COUNT >= spec_data_blocks(new_size) {
                seq![old(self).indirect1]
            } else {
                Seq::<u32>::empty()
            }),
            freed@.len() == spec_total_blocks(old(self).size) - spec_total_blocks(new_size),
            final(self).indirect1 == (if spec_data_blocks(new_size) > INODE_DIRECT_COUNT {
                old(self).indirect1
            } else {
                0u32
            }),
    {
        let keep = Self::data_blocks(new_size);
        let mut freed = self.blocks.split_off(keep as usize);
        if keep <= INODE_DIRECT_COUNT as u32 && self.indirect1 != 0 {
            freed.push(self.indirect1);
            self.indirect1 = 0;
        }
        self.size = new_size;
        proof {
            assert(final(self).blocks@ == old(self).blocks@.take(spec_data_blocks(new_size)));
        }
        freed
    }

    /// clear_size: shrink the inode to nothing, detaching every block it
    /// occupied - exactly `total_blocks` of them.
    pub fn clear_size(&mut self) -> (freed: Vec<u32>)
        requires
            old(self).wf(),
        ensures
            final(self).wf(),
            final(self).size == 0,
            final(self).type_ == old(self).type_,
            final(self).nlinks == old(self).nlinks,
            final(self).blocks@.len() == 0,
            final(self).indirect1 == 0,
            freed@.len() == spec_total_blocks(old(self).size),
            freed@ == old(self).blocks@ + (if spec_data_blocks(old(self).size)
                > INODE_DIRECT_COUNT {
                seq![old(self).indirect1]
            } else {
                Seq::<u32>::empty()
            }),
    {
        let freed = self.decrease_size(0);
        proof {
            assert(old(self).blocks@.skip(0) =~= old(self).blocks@);
            assert(old(self).blocks@.skip(0) + (if spec_data_blocks(old(self).size)
                > INODE_DIRECT_COUNT {
                seq![old(self).indirect1]
            } else {
                Seq::<u32>::empty()
            }) =~= old(self).blocks@ + (if spec_data_blocks(old(self).size)
                > INODE_DIRECT_COUNT {
                seq![old(self).indirect1]
            } else {
                Seq::<u32>::empty()
            }));
        }
        freed
    }
}

/// The little-endian word at byte offset `off` of `b`.
pub open spec fn spec_u32_at(b: Seq<u8>, off: int) -> u32 {
    spec_u32_from_le_bytes(b.subrange(off, off + 4))
}

/// The size field of the inode record at (`bid`, `off`).
pub open spec fn spec_size_at(view: Seq<Seq<u8>>, bid: int, off: int) -> u32 {
    spec_u32_at(view[bid], off)
}

/// The link-count field of the inode record at (`bid`, `off`).
pub open spec fn spec_nlinks_at(view: Seq<Seq<u8>>, bid: int, off: int) -> u32 {
    spec_u32_at(view[bid], off + 4)
}

/// The type tag of the inode record at (`bid`, `off`).
pub open spec fn spec_tag_at(view: Seq<Seq<u8>>, bid: int, off: int) -> u8 {
    view[bid][off + 8]
}

/// The indirect-block field of the inode record at (`bid`, `off`).
pub open spec fn spec_ind_at(view: Seq<Seq<u8>>, bid: int, off: int) -> u32 {
    spec_u32_at(view[bid], off + 12)
}

/// The `i`-th data-block pointer of the inode record at (`bid`, `off`):
/// from the record's direct array while it lasts, from the indirect block
/// past it.
pub open spec fn spec_block_at(view: Seq<Seq<u8>>, bid: int, off: int, i: int) -> u32 {
    if i < INODE_DIRECT_COUNT {
        spec_u32_at(view[bid], off + 16 + 4 * i)
    } else {
        spec_u32_at(view[spec_ind_at(view, bid, off) as int], 4 * (i - INODE_DIRECT_COUNT))
    }
}

/// Whether the loaded inode `d` is exactly what the record at (`bid`,
/// `off`) and its indirect block encode.
pub open spec fn spec_inode_matches(d: &DiskInode, view: Seq<Seq<u8>>, bid: int, off: int) -> bool {
    &&& d.size == spec_size_at(view, bid, off)
    &&& d.nlinks == spec_nlinks_at(view, bid, off)
    &&& d.type_ == (if spec_tag_at(view, bid, off) == 1u8 {
        DiskInodeType::Directory
    } else {
        DiskInodeType::File
    })
    &&& d.indirect1 == spec_ind_at(view, bid, off)
    &&& d.blocks@.len() == spec_data_blocks(d.size)
    &&& forall|i: int|
        0 <= i < d.blocks@.len() ==> d.blocks@[i] == spec_block_at(view, bid, off, i)
}

/// Whether the blocks a loaded inode points to can safely carry its data:
/// real device blocks, none of them block zero, the record's own block or
/// the indirect block, and no block doubled.
pub open spec fn spec_inode_locs_ok(d: &DiskInode, nblocks: int, bid: int) -> bool {
    &&& forall|i: int|
        0 <= i < d.blocks@.len() ==> 0 < #[trigger] d.blocks@[i] < nblocks && d.blocks@[i] != bid
            && d.blocks@[i] != d.indirect1
    &&& forall|i: int, j: int|
        0 <= i < j < d.blocks@.len() ==> #[trigger] d.blocks@[i] != #[trigger] d.blocks@[j]
    &&& d.indirect1 != 0 ==> 0 < d.indirect1 < nblocks && d.indirect1 != bid
}

/// Whether the record at (`bid`, `off`) decodes to a sound inode whose
/// blocks are safe to use: the ranges, the size/block invariant, and the
/// location constraints all hold of what the bytes encode.
pub open spec fn spec_inode_valid_at(view: Seq<Seq<u8>>, bid: int, off: int) -> bool {
    &&& 0 <= bid < view.len()
    &&& view[bid].len() == BLOCK_SZ
    &&& 0 <= off
    &&& off + INODE_SZ <= BLOCK_SZ
    &&& spec_size_at(view, bid, off) <= INODE_MAX_SIZE
    &&& (spec_data_blocks(spec_size_at(view, bid, off)) > INODE_DIRECT_COUNT <==> spec_ind_at(
        view,
        bid,
        off,
    ) != 0)
    &&& (spec_ind_at(view, bid, off) != 0 ==> 0 < spec_ind_at(view, bid, off) < view.len()
        && view[spec_ind_at(view, bid, off) as int].len() == BLOCK_SZ && spec_ind_at(view, bid, off)
        != bid)
    &&& forall|i: int|
        0 <= i < spec_data_blocks(spec_size_at(view, bid, off)) ==> 0 < #[trigger] spec_block_at(
            view,
            bid,
            off,
            i,
        ) < view.len() && spec_block_at(view, bid, off, i) != bid && spec_block_at(view, bid, off, i)
            != spec_ind_at(view, bid, off)
    &&& forall|i: int, j: int|
        0 <= i < j < spec_data_blocks(spec_size_at(view, bid, off)) ==> #[trigger] spec_block_at(
            view,
            bid,
            off,
            i,
        ) != #[trigger] spec_block_at(view, bid, off, j)
}

impl DiskInode {
    /// Load the inode record at (`block_id`, `offset`), resolving its
    /// indirect block, into loaded form.
    pub fn load(cache: &mut crate::block_cache::BlockCache, block_id: usize, offset: usize) -> (r:
        DiskInode)
        requires
            old(cache).wf(),
            spec_inode_valid_at(old(cache).view(), block_id as int, offset as int),
        ensures
            final(cache).wf(),
            final(cache).view() == old(cache).view(),
            spec_inode_matches(&r, old(cache).view(), block_id as int, offset as int),
            r.wf(),
            spec_inode_locs_ok(&r, old(cache).view().len() as int, block_id as int),
    {
        let ghost view0 = old(cache).view();
        let sbytes = cache.read_bytes(block_id, offset, 4);
        let size = u32_from_le_bytes(sbytes.as_slice());
        let lbytes = cache.read_bytes(block_id, offset + 4, 4);
        let nlinks = u32_from_le_bytes(lbytes.as_slice());
        let tag = cache.read_byte(block_id, offset + 8);
        let ibytes = cache.read_bytes(block_id, offset + 12, 4);
        let indirect1 = u32_from_le_bytes(ibytes.as_slice());
        let type_ = if tag == 1 {
            DiskInodeType::Directory
        } else {
            DiskInodeType::File
        };
        let nd = Self::data_blocks(size) as usize;
        let mut blocks: Vec<u32> = Vec::new();
        let mut i: usize = 0;
        while i < nd
            invariant
                cache.wf(),
                cache.view() == view0,
                spec_inode_valid_at(view0, block_id as int, offset as int),
                size == spec_size_at(view0, block_id as int, offset as int),
                indirect1 == spec_ind_at(view0, block_id as int, offset as int),
                nd == spec_data_blocks(size),
                offset + INODE_SZ <= BLOCK_SZ,
                block_id < view0.len(),
                i <= nd,
                blocks@.len() == i,
                forall|k: int|
                    0 <= k < i ==> #[trigger] blocks@[k] == spec_block_at(
                        view0,
                        block_id as int,
                        offset as int,
                        k,
                    ),
            decreases nd - i,
        {
            let b: u32;
            if i < INODE_DIRECT_COUNT {
                let bb = cache.read_bytes(block_id, offset + 16 + 4 * i, 4);
                b = u32_from_le_bytes(bb.as_slice());
            } else {
                let bb = cache.read_bytes(indirect1 as usize, 4 * (i - INODE_DIRECT_COUNT), 4);
                b = u32_from_le_bytes(bb.as_slice());
            }
            blocks.push(b);
            i += 1;
        }
        DiskInode { type_, size, nlinks, blocks, indirect1 }
    }
}

impl DiskInode {
    /// Store this inode's record at (`block_id`, `offset`) and, when it has
    /// one, its indirect block, so that loading from there gives this inode
    /// back. Blocks other than the record's and the indirect one keep their
    /// bytes, and so does the rest of the record's block.
    pub fn store(&self, cache: &mut crate::block_cache::BlockCache, block_id: usize, offset: usize)
        requires
            old(cache).wf(),
            self.wf(),
            block_id < old(cache).view().len(),
            offset + INODE_SZ <= BLOCK_SZ,
            spec_inode_locs_ok(self, old(cache).view().len() as int, block_id as int),
        ensures
            final(cache).wf(),
            final(cache).view().len() == old(cache).view().len(),
            spec_inode_matches(self, final(cache).view(), block_id as int, offset as int),
            spec_inode_valid_at(final(cache).view(), block_id as int, offset as int),
            forall|b: int|
                0 <= b < old(cache).view().len() && b != block_id && b != self.indirect1
                    ==> final(cache).view()[b] == old(cache).view()[b],
            self.indirect1 == 0 ==> forall|b: int|
                0 <= b < old(cache).view().len() && b != block_id ==> final(cache).view()[b]
                    == old(cache).view()[b],
            forall|k: int|
                0 <= k < BLOCK_SZ && !(offset <= k < offset + INODE_SZ)
                    ==> final(cache).view()[block_id as int][k]
                    == old(cache).view()[block_id as int][k],
    {
        let ghost view0 = old(cache).view();
        // build the 128-byte record
        let mut rec = u32_to_le_bytes(self.size);
        let mut t = u32_to_le_bytes(self.nlinks);
        rec.append(&mut t);
        let tag: u8 = if self.is_dir() {
            1
        } else {
            0
        };
        rec.push(tag);
        rec.push(0);
        rec.push(0);
        rec.push(0);
        let mut t2 = u32_to_le_bytes(self.indirect1);
        rec.append(&mut t2);
        proof {
            assert(rec@.subrange(0, 4) =~= spec_u32_to_le_bytes(self.size));
            assert(rec@.subrange(4, 8) =~= spec_u32_to_le_bytes(self.nlinks));
            assert(rec@[8] == tag);
            assert(rec@.subrange(12, 16) =~= spec_u32_to_le_bytes(self.indirect1));
        }
        let nblocks = self.blocks.len();
        let mut i: usize = 0;
        while i < INODE_DIRECT_COUNT
            invariant
                nblocks == self.blocks@.len(),
                i <= INODE_DIRECT_COUNT,
                rec@.len() == 16 + 4 * i,
                rec@.subrange(0, 4) == spec_u32_to_le_bytes(self.size),
                rec@.subrange(4, 8) == spec_u32_to_le_bytes(self.nlinks),
                rec@[8] == (if self.type_ == DiskInodeType::Directory {
                    1u8
                } else {
                    0u8
                }),
                rec@.subrange(12, 16) == spec_u32_to_le_bytes(self.indirect1),
                forall|k: int|
                    0 <= k < i ==> #[trigger] rec@.subrange(16 + 4 * k, 20 + 4 * k)
                        == spec_u32_to_le_bytes(
                        if k < self.blocks@.len() {
                            self.blocks@[k]
                        } else {
                            0u32
                        },
                    ),
            decreases INODE_DIRECT_COUNT - i,
        {
            let ghost rec0 = rec@;
            let v: u32 = if i < nblocks {
                self.blocks[i]
            } else {
                0
            };
            let mut vb = u32_to_le_bytes(v);
            rec.append(&mut vb);
            proof {
                assert(rec@.subrange(0, 4) =~= rec0.subrange(0, 4));
                assert(rec@.subrange(4, 8) =~= rec0.subrange(4, 8));
                assert(rec@.subrange(12, 16) =~= rec0.subrange(12, 16));
                assert forall|k: int|
                    0 <= k < i + 1 implies #[trigger] rec@.subrange(16 + 4 * k, 20 + 4 * k)
                    == spec_u32_to_le_bytes(
                    if k < self.blocks@.len() {
                        self.blocks@[k]
                    } else {
                        0u32
                    },
                ) by {
                    if k < i {
                        assert(rec@.subrange(16 + 4 * k, 20 + 4 * k) =~= rec0.subrange(
                            16 + 4 * k,
                            20 + 4 * k,
                        ));
                    } else {
                        assert(rec@.subrange(16 + 4 * k, 20 + 4 * k) =~= spec_u32_to_le_bytes(v));
                    }
                }
            }
            i += 1;
        }
        let ghost rec124 = rec@;
        rec.push(0);
        rec.push(0);
        rec.push(0);
        rec.push(0);
        let ghost rec_full = rec@;
        proof {
            assert(rec_full.len() == INODE_SZ);
            assert(rec_full.subrange(0, 4) =~= spec_u32_to_le_bytes(self.size));
            assert(rec_full.subrange(4, 8) =~= spec_u32_to_le_bytes(self.nlinks));
            assert(rec_full.subrange(12, 16) =~= spec_u32_to_le_bytes(self.indirect1));
            assert forall|k: int|
                0 <= k < INODE_DIRECT_COUNT implies #[trigger] rec_full.subrange(
                16 + 4 * k,
                20 + 4 * k,
            ) == spec_u32_to_le_bytes(
                if k < self.blocks@.len() {
                    self.blocks@[k]
                } else {
                    0u32
                },
            ) by {
                assert(rec_full.subrange(16 + 4 * k, 20 + 4 * k) =~= rec124.subrange(
                    16 + 4 * k,
                    20 + 4 * k,
                ));
            }
        }
        cache.write_bytes(block_id, offset, &rec);
        let ghost view1 = cache.view();
        // write the indirect block, when the inode has one
        if self.indirect1 != 0 {
            let mut ib: Vec<u8> = Vec::new();
            let mut k: usize = 0;
            while k < INODE_INDIRECT1_COUNT
                invariant
                    nblocks == self.blocks@.len(),
                    k <= INODE_INDIRECT1_COUNT,
                    ib@.len() == 4 * k,
                    forall|j: int|
                        0 <= j < k ==> #[trigger] ib@.subrange(4 * j, 4 * j + 4)
                            == spec_u32_to_le_bytes(
                            if INODE_DIRECT_COUNT + j < self.blocks@.len() {
                                self.blocks@[INODE_DIRECT_COUNT + j]
                            } else {
                                0u32
                            },
                        ),
                decreases INODE_INDIRECT1_COUNT - k,
            {
                let ghost ib0 = ib@;
                let v: u32 = if INODE_DIRECT_COUNT + k < nblocks {
                    self.blocks[INODE_DIRECT_COUNT + k]
                } else {
                    0
                };
                let mut vb = u32_to_le_bytes(v);
                ib.append(&mut vb);
                proof {
                    assert forall|j: int|
                        0 <= j < k + 1 implies #[trigger] ib@.subrange(4 * j, 4 * j + 4)
                        == spec_u32_to_le_bytes(
                        if INODE_DIRECT_COUNT + j < self.blocks@.len() {
                            self.blocks@[INODE_DIRECT_COUNT + j]
                        } else {
                            0u32
                        },
                    ) by {
                        if j < k {
                            assert(ib@.subrange(4 * j, 4 * j + 4) =~= ib0.subrange(
                                4 * j,
                                4 * j + 4,
                            ));
                        } else {
                            assert(ib@.subrange(4 * j, 4 * j + 4) =~= spec_u32_to_le_bytes(v));
                        }
                    }
                }
                k += 1;
            }
            cache.write_bytes(self.indirect1 as usize, 0, &ib);
            proof {
                crate::block_cache::lemma_view_block_len(&old(cache), self.indirect1 as int);
                let ind = self.indirect1 as int;
                assert(cache.view()[ind] =~= ib@);
                assert forall|i2: int|
                    INODE_DIRECT_COUNT <= i2 < self.blocks@.len() implies #[trigger] cache.view()[ind].subrange(
                    4 * (i2 - INODE_DIRECT_COUNT),
                    4 * (i2 - INODE_DIRECT_COUNT) + 4,
                ) == spec_u32_to_le_bytes(self.blocks@[i2]) by {
                    assert(cache.view()[ind].subrange(
                        4 * (i2 - INODE_DIRECT_COUNT),
                        4 * (i2 - INODE_DIRECT_COUNT) + 4,
                    ) =~= ib@.subrange(
                        4 * (i2 - INODE_DIRECT_COUNT),
                        4 * (i2 - INODE_DIRECT_COUNT) + 4,
                    ));
                }
            }
        }
        proof {
            lemma_auto_spec_u32_to_from_le_bytes();
            let bid = block_id as int;
            let off = offset as int;
            let vnew = cache.view();
            crate::block_cache::lemma_view_block_len(cache, bid);
            assert(vnew[bid].subrange(off, off + 4) =~= rec_full.subrange(0, 4));
            assert(vnew[bid].subrange(off + 4, off + 8) =~= rec_full.subrange(4, 8));
            assert(vnew[bid][off + 8] == rec_full[8]);
            assert(vnew[bid].subrange(off + 12, off + 16) =~= rec_full.subrange(12, 16));
            assert(spec_size_at(vnew, bid, off) == self.size);
            assert(spec_nlinks_at(vnew, bid, off) == self.nlinks);
            assert(spec_ind_at(vnew, bid, off) == self.indirect1);
            assert forall|i2: int| 0 <= i2 < self.blocks@.len() implies #[trigger] spec_block_at(
                vnew,
                bid,
                off,
                i2,
            ) == self.blocks@[i2] by {
                if i2 < INODE_DIRECT_COUNT {
                    assert(vnew[bid].subrange(off + 16 + 4 * i2, off + 20 + 4 * i2)
                        =~= rec_full.subrange(16 + 4 * i2, 20 + 4 * i2));
                } else {
                    assert(self.indirect1 != 0);
                }
            }
            assert(spec_inode_matches(self, vnew, bid, off));
            assert forall|k: int|
                0 <= k < BLOCK_SZ && !(off <= k < off + INODE_SZ) implies vnew[bid][k]
                == view0[bid][k] by {}
        }
    }
}

/// The logical content of inode `d` under disk view `view`: `size` bytes
/// read through the block list.
pub open spec fn spec_content(d: &DiskInode, view: Seq<Seq<u8>>) -> Seq<u8> {
    Seq::new(
        d.size as nat,
        |i: int| view[d.blocks@[i / (BLOCK_SZ as int)] as int][i % (BLOCK_SZ as int)],
    )
}

/// Whether `b` is one of `d`'s data blocks.
pub open spec fn spec_is_data_block(d: &DiskInode, b: int) -> bool {
    exists|i: int| 0 <= i < d.blocks@.len() && #[trigger] d.blocks@[i] == b
}

impl DiskInode {
    /// read_at: copy the inode's bytes from `offset` on into `buf`, up to
    /// `buf`'s length or the end of the content, whichever is nearer; the
    /// number of bytes copied comes back and the rest of `buf` is untouched.
    pub fn read_at(
        &self,
        offset: usize,
        buf: &mut Vec<u8>,
        cache: &mut crate::block_cache::BlockCache,
    ) -> (r: usize)
        requires
            old(cache).wf(),
            self.wf(),
            spec_inode_locs_ok(self, old(cache).view().len() as int, -1),
        ensures
            final(cache).wf(),
            final(cache).view() == old(cache).view(),
            r == (if offset >= self.size {
                0int
            } else if self.size - offset < old(buf)@.len() {
                self.size - offset
            } else {
                old(buf)@.len() as int
            }),
            final(buf)@.len() == old(buf)@.len(),
            forall|k: int|
                0 <= k < r ==> final(buf)@[k] == spec_content(self, old(cache).view())[offset + k],
            forall|k: int| r <= k < old(buf)@.len() ==> final(buf)@[k] == old(buf)@[k],
    {
        if offset >= self.size as usize {
            return 0;
        }
        let avail = self.size as usize - offset;
        let n = if buf.len() < avail {
            buf.len()
        } else {
            avail
        };
        let mut k: usize = 0;
        while k < n
            invariant
                cache.wf(),
                cache.view() == old(cache).view(),
                self.wf(),
                spec_inode_locs_ok(self, old(cache).view().len() as int, -1),
                offset + n <= self.size,
                k <= n,
                n <= buf@.len(),
                buf@.len() == old(buf)@.len(),
                forall|m: int|
                    0 <= m < k ==> buf@[m] == spec_content(self, old(cache).view())[offset + m],
                forall|m: int| k <= m < buf@.len() ==> buf@[m] == old(buf)@[m],
            decreases n - k,
        {
            let pos = offset + k;
            proof {
                assert(pos < self.size);
                assert(pos as int / (BLOCK_SZ as int) < self.blocks@.len());
            }
            let bid = self.blocks[pos / BLOCK_SZ];
            let v = cache.read_byte(bid as usize, pos % BLOCK_SZ);
            buf.set(k, v);
            k += 1;
        }
        n
    }

    /// write_at: copy `buf` into the inode's bytes from `offset` on, up to
    /// the end of the content; the number of bytes written comes back. The
    /// caller grows the inode first when it wants the write to fit whole.
    pub fn write_at(
        &self,
        offset: usize,
        buf: &[u8],
        cache: &mut crate::block_cache::BlockCache,
    ) -> (r: usize)
        requires
            old(cache).wf(),
            self.wf(),
            spec_inode_locs_ok(self, old(cache).view().len() as int, -1),
            offset <= self.size,
        ensures
            final(cache).wf(),
            final(cache).view().len() == old(cache).view().len(),
            r == (if self.size - offset < buf@.len() {
                self.size - offset
            } else {
                buf@.len() as int
            }),
            forall|b: int|
                0 <= b < old(cache).view().len() && !spec_is_data_block(self, b)
                    ==> final(cache).view()[b] == old(cache).view()[b],
            forall|m: int|
                0 <= m < self.size ==> spec_content(self, final(cache).view())[m] == (if offset
                    <= m < offset + r {
                    buf@[m - offset]
                } else {
                    spec_content(self, old(cache).view())[m]
                }),
    {
        let avail = self.size as usize - offset;
        let n = if buf.len() < avail {
            buf.len()
        } else {
            avail
        };
        let mut k: usize = 0;
        while k < n
            invariant
                cache.wf(),
                cache.view().len() == old(cache).view().len(),
                self.wf(),
                spec_inode_locs_ok(self, old(cache).view().len() as int, -1),
                offset + n <= self.size,
                n <= buf@.len(),
                k <= n,
                forall|b: int|
                    0 <= b < old(cache).view().len() && !spec_is_data_block(self, b)
                        ==> cache.view()[b] == old(cache).view()[b],
                forall|m: int|
                    0 <= m < self.size ==> spec_content(self, cache.view())[m] == (if offset <= m
                        < offset + k {
                        buf@[m - offset]
                    } else {
                        spec_content(self, old(cache).view())[m]
                    }),
            decreases n - k,
        {
            let pos = offset + k;
            proof {
                assert(pos < self.size);
                assert(pos as int / (BLOCK_SZ as int) < self.blocks@.len());
            }
            let bid = self.blocks[pos / BLOCK_SZ];
            proof {
                crate::block_cache::lemma_view_block_len(cache, bid as int);
            }
            let ghost mid = cache.view();
            cache.write_byte(bid as usize, pos % BLOCK_SZ, buf[k]);
            proof {
                let posi = pos as int;
                let bsz = BLOCK_SZ as int;
                assert forall|m: int|
                    0 <= m < self.size implies spec_content(self, cache.view())[m] == (if offset
                    <= m < offset + k + 1 {
                    buf@[m - offset]
                } else {
                    spec_content(self, old(cache).view())[m]
                }) by {
                    assert(0 <= m / bsz < self.blocks@.len());
                    assert(0 <= posi / bsz < self.blocks@.len());
                    assert(self.blocks@[posi / bsz] == bid);
                    let mb = self.blocks@[m / bsz] as int;
                    let cnew = cache.view();
                    if mb == bid as int {
                        assert(self.blocks@[m / bsz] == self.blocks@[posi / bsz]);
                        assert(m / bsz == posi / bsz);
                        assert(cnew[mb] == mid[bid as int].update(posi % bsz, buf@[k as int]));
                        if m % bsz == posi % bsz {
                            assert(m == posi);
                            assert(spec_content(self, cnew)[m] == buf@[k as int]);
                        } else {
                            assert(cnew[mb][m % bsz] == mid[mb][m % bsz]);
                            assert(spec_content(self, cnew)[m] == spec_content(self, mid)[m]);
                        }
                    } else {
                        assert(cnew[mb] == mid[mb]);
                        assert(spec_content(self, cnew)[m] == spec_content(self, mid)[m]);
                    }
                }
                assert forall|b: int|
                    0 <= b < old(cache).view().len() && !spec_is_data_block(self, b) implies cache.view()[b]
                    == old(cache).view()[b] by {
                    assert(self.blocks@[posi / bsz] == bid);
                }
            }
            k += 1;
        }
        n
    }
}

} // verus!
