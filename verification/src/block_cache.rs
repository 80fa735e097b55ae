//! The block cache: a bounded set of in-memory copies of device blocks, each
//! with a dirty flag. Reads and writes go to the cached copy; a dirty block
//! reaches the device when it is evicted to make room or when `sync_all`
//! flushes everything. The cache's view - the device as the blocks' contents
//! currently stand - is what every layer above reasons about; only `sync_all`
//! guarantees the device itself has caught up.
use vstd::prelude::*;

use crate::BLOCK_SZ;
use crate::block_dev::BlockDevice;

verus! {

/// Capacity of the cache in blocks.
pub const BLOCK_CACHE_SIZE: usize = 16;

/// One cached block.
pub struct CacheEntry {
    pub block_id: usize,
    pub data: Vec<u8>,
    pub dirty: bool,
}

/// Index of the first cache entry holding `bid`, or -1.
pub open spec fn find_idx(s: Seq<CacheEntry>, bid: int) -> int
    decreases s.len(),
{
    if s.len() == 0 {
        -1
    } else if s[0].block_id == bid {
        0
    } else {
        let r = find_idx(s.drop_first(), bid);
        if r == -1 {
            -1
        } else {
            r + 1
        }
    }
}

/// `s[off..off + d.len())` replaced by `d`.
pub open spec fn splice(s: Seq<u8>, off: int, d: Seq<u8>) -> Seq<u8> {
    Seq::new(s.len(), |i: int| if off <= i < off + d.len() {
        d[i - off]
    } else {
        s[i]
    })
}

/// Basic facts about `find_idx`: its range, that a hit really holds `bid`,
/// and that a miss means no entry holds `bid`.
pub proof fn lemma_find_props(s: Seq<CacheEntry>, bid: int)
    ensures
        -1 <= find_idx(s, bid) < s.len(),
        find_idx(s, bid) >= 0 ==> s[find_idx(s, bid)].block_id == bid,
        find_idx(s, bid) == -1 ==> forall|i: int|
            0 <= i < s.len() ==> (#[trigger] s[i]).block_id != bid,
    decreases s.len(),
{
    if s.len() > 0 && s[0].block_id != bid {
        lemma_find_props(s.drop_first(), bid);
        if find_idx(s, bid) == -1 {
            assert forall|i: int| 0 <= i < s.len() implies (#[trigger] s[i]).block_id != bid by {
                if i > 0 {
                    assert(s.drop_first()[i - 1] == s[i]);
                }
            }
        }
    }
}

/// If the entries below `i` miss `bid` and entry `i` (when present) hits it,
/// then `find_idx` returns `i`, or -1 when `i` is the length.
pub proof fn lemma_find_first(s: Seq<CacheEntry>, bid: int, i: int)
    requires
        0 <= i <= s.len(),
        forall|j: int| 0 <= j < i ==> (#[trigger] s[j]).block_id != bid,
        i < s.len() ==> s[i].block_id == bid,
    ensures
        find_idx(s, bid) == if i == s.len() {
            -1int
        } else {
            i
        },
    decreases i,
{
    if i == 0 {
    } else {
        assert(s[0].block_id != bid);
        assert forall|j: int| 0 <= j < i - 1 implies (#[trigger] s.drop_first()[j]).block_id
            != bid by {
            assert(s.drop_first()[j] == s[j + 1]);
        }
        assert(i - 1 < s.drop_first().len() ==> s.drop_first()[i - 1] == s[i]);
        lemma_find_first(s.drop_first(), bid, i - 1);
    }
}

/// Replacing entry `i` by one holding the same block leaves every lookup
/// unchanged.
pub proof fn lemma_find_update(s: Seq<CacheEntry>, i: int, e: CacheEntry, bid: int)
    requires
        0 <= i < s.len(),
        e.block_id == s[i].block_id,
    ensures
        find_idx(s.update(i, e), bid) == find_idx(s, bid),
    decreases s.len(),
{
    let s2 = s.update(i, e);
    if s.len() > 0 {
        if i == 0 {
            if s[0].block_id != bid {
                assert(s2.drop_first() =~= s.drop_first());
            }
        } else {
            assert(s2[0] == s[0]);
            if s[0].block_id != bid {
                assert(s2.drop_first() =~= s.drop_first().update(i - 1, e));
                assert(s.drop_first()[i - 1] == s[i]);
                lemma_find_update(s.drop_first(), i - 1, e, bid);
            }
        }
    }
}

/// Appending an entry changes no lookup of another block, and a lookup of
/// the new block hits the appended entry when it missed before.
pub proof fn lemma_find_push(s: Seq<CacheEntry>, e: CacheEntry, bid: int)
    ensures
        bid != e.block_id ==> find_idx(s.push(e), bid) == find_idx(s, bid),
        bid == e.block_id && find_idx(s, bid) == -1 ==> find_idx(s.push(e), bid) == s.len(),
    decreases s.len(),
{
    if s.len() == 0 {
        assert(s.push(e).len() == 1);
        assert(s.push(e)[0] == e);
        if bid != e.block_id {
            assert(s.push(e).drop_first() =~= Seq::<CacheEntry>::empty());
            assert(find_idx(s.push(e).drop_first(), bid) == -1);
            assert(find_idx(s.push(e), bid) == -1);
        } else {
            assert(find_idx(s.push(e), bid) == 0);
        }
    } else {
        assert(s.push(e)[0] == s[0]);
        if s[0].block_id != bid {
            assert(s.push(e).drop_first() =~= s.drop_first().push(e));
            lemma_find_push(s.drop_first(), e, bid);
            lemma_find_props(s.drop_first(), bid);
            lemma_find_props(s.drop_first().push(e), bid);
            assert(find_idx(s.push(e).drop_first(), bid) == find_idx(s.drop_first().push(e), bid));
        } else {
            assert(find_idx(s, bid) == 0);
            assert(find_idx(s.push(e), bid) == 0);
        }
    }
}

/// Every block of a sound cache's view is exactly one block long.
pub proof fn lemma_view_block_len(c: &BlockCache, b: int)
    requires
        c.wf(),
        0 <= b < c.view().len(),
    ensures
        c.view()[b].len() == BLOCK_SZ,
{
    lemma_find_props(c.entries@, b);
}

/// The block cache over its device.
pub struct BlockCache {
    pub device: BlockDevice,
    pub entries: Vec<CacheEntry>,
}

impl BlockCache {
    /// Structural soundness: a bounded number of entries, each a full block
    /// of an existing device block, no block cached twice, and every clean
    /// entry agreeing with the device.
    pub open spec fn wf(&self) -> bool {
        &&& self.device.wf()
        &&& self.entries@.len() <= BLOCK_CACHE_SIZE
        &&& forall|i: int|
            0 <= i < self.entries@.len() ==> (#[trigger] self.entries@[i]).block_id
                < self.device.view().len()
        &&& forall|i: int|
            0 <= i < self.entries@.len() ==> (#[trigger] self.entries@[i]).data@.len() == BLOCK_SZ
        &&& forall|i: int, j: int|
            0 <= i < j < self.entries@.len() ==> (#[trigger] self.entries@[i]).block_id != (
            #[trigger] self.entries@[j]).block_id
        &&& forall|i: int|
            0 <= i < self.entries@.len() && !(#[trigger] self.entries@[i]).dirty
                ==> self.entries@[i].data@ == self.device.view()[self.entries@[i].block_id as int]
    }

    /// The bytes of every block as the filesystem currently sees them:
    /// cached content where a block is cached, device content elsewhere.
    pub open spec fn view(&self) -> Seq<Seq<u8>> {
        Seq::new(
            self.device.view().len(),
            |b: int|
                if find_idx(self.entries@, b) >= 0 {
                    self.entries@[find_idx(self.entries@, b)].data@
                } else {
                    self.device.view()[b]
                },
        )
    }

    /// An empty cache over `device`.
    pub fn new(device: BlockDevice) -> (r: BlockCache)
        requires
            device.wf(),
        ensures
            r.wf(),
            r.view() == device.view(),
    {
        let r = BlockCache { device, entries: Vec::new() };
        proof {
            assert(r.view() =~= r.device.view());
        }
        r
    }

    /// Number of blocks of the underlying device.
    pub fn num_blocks(&self) -> (r: usize)
        ensures
            r == self.view().len(),
    {
        self.device.num_blocks()
    }

    /// Index of the cache entry for `block_id`, loading the block and, under
    /// capacity pressure, first flushing and evicting the oldest entry. The
    /// view never changes: eviction writes a dirty victim back before reuse.
    fn get_slot(&mut self, block_id: usize) -> (idx: usize)
        requires
            old(self).wf(),
            block_id < old(self).view().len(),
        ensures
            final(self).wf(),
            final(self).view() == old(self).view(),
            idx < final(self).entries@.len(),
            final(self).entries@[idx as int].block_id == block_id,
            find_idx(final(self).entries@, block_id as int) == idx,
            final(self).view()[block_id as int] == final(self).entries@[idx as int].data@,
    {
        let n = self.entries.len();
        let mut i: usize = 0;
        while i < n
            invariant
                n == self.entries@.len(),
                i <= n,
                self == old(self),
                self.wf(),
                block_id < self.view().len(),
                forall|j: int| 0 <= j < i ==> (#[trigger] self.entries@[j]).block_id != block_id,
            decreases n - i,
        {
            if self.entries[i].block_id == block_id {
                proof {
                    lemma_find_first(self.entries@, block_id as int, i as int);
                }
                return i;
            }
            i += 1;
        }
        proof {
            lemma_find_first(self.entries@, block_id as int, n as int);
        }
        // not cached: make room if full, evicting the oldest entry
        if self.entries.len() == BLOCK_CACHE_SIZE {
            let victim = self.entries.remove(0);
            if victim.dirty {
                self.device.write_block(victim.block_id, &victim.data);
            }
            proof {
                let s_old = old(self).entries@;
                let s_new = self.entries@;
                assert(s_new =~= s_old.drop_first());
                assert(victim == s_old[0]);
                assert forall|j: int| 0 <= j < s_new.len() implies (#[trigger] s_new[j]).block_id
                    != victim.block_id by {
                    assert(s_new[j] == s_old[j + 1]);
                }
                lemma_find_first(s_new, victim.block_id as int, s_new.len() as int);
                assert forall|b: int| 0 <= b < self.view().len() implies self.view()[b] == old(
                    self,
                ).view()[b] by {
                    if b == victim.block_id {
                        assert(find_idx(s_old, b) == 0);
                        assert(old(self).view()[b] == victim.data@);
                        assert(find_idx(s_new, b) == -1);
                        assert(self.device.view()[b] == victim.data@);
                    } else {
                        lemma_find_props(s_old, b);
                        lemma_find_props(s_old.drop_first(), b);
                        assert(self.device.view()[b] == old(self).device.view()[b]);
                        assert(find_idx(s_old, b) == if s_old.len() == 0 {
                            -1int
                        } else if s_old[0].block_id == b {
                            0int
                        } else {
                            if find_idx(s_old.drop_first(), b) == -1 {
                                -1int
                            } else {
                                find_idx(s_old.drop_first(), b) + 1
                            }
                        });
                        if find_idx(s_old, b) >= 0 {
                            assert(find_idx(s_new, b) == find_idx(s_old, b) - 1);
                            assert(s_new[find_idx(s_new, b)] == s_old[find_idx(s_old, b)]);
                        } else {
                            assert(find_idx(s_new, b) == -1);
                        }
                    }
                }
                assert(self.view() =~= old(self).view());
                assert forall|j: int|
                    0 <= j < s_new.len() implies (#[trigger] s_new[j]).block_id != block_id by {
                    assert(s_new[j] == s_old[j + 1]);
                }
            }
        }
        proof {
            lemma_find_first(self.entries@, block_id as int, self.entries@.len() as int);
        }
        let ghost pre = *self;
        let data = self.device.read_block(block_id);
        let idx = self.entries.len();
        self.entries.push(CacheEntry { block_id, data, dirty: false });
        proof {
            let e = self.entries@[idx as int];
            assert(self.entries@ == pre.entries@.push(e));
            assert forall|b: int| 0 <= b < self.view().len() implies self.view()[b]
                == pre.view()[b] by {
                lemma_find_push(pre.entries@, e, b);
                lemma_find_props(pre.entries@, b);
                lemma_find_props(self.entries@, b);
            }
            assert(self.view() =~= pre.view());
            lemma_find_push(pre.entries@, e, block_id as int);
        }
        idx
    }

    /// Read the byte at `offset` inside block `block_id`.
    pub fn read_byte(&mut self, block_id: usize, offset: usize) -> (r: u8)
        requires
            old(self).wf(),
            block_id < old(self).view().len(),
            offset < BLOCK_SZ,
        ensures
            final(self).wf(),
            final(self).view() == old(self).view(),
            r == old(self).view()[block_id as int][offset as int],
    {
        let idx = self.get_slot(block_id);
        self.entries[idx].data[offset]
    }

    /// Read `len` bytes starting at `offset` inside block `block_id`.
    pub fn read_bytes(&mut self, block_id: usize, offset: usize, len: usize) -> (r: Vec<u8>)
        requires
            old(self).wf(),
            block_id < old(self).view().len(),
            offset + len <= BLOCK_SZ,
        ensures
            final(self).wf(),
            final(self).view() == old(self).view(),
            r@ == old(self).view()[block_id as int].subrange(
                offset as int,
                offset as int + len as int,
            ),
    {
        let idx = self.get_slot(block_id);
        let mut out: Vec<u8> = Vec::new();
        let mut j: usize = 0;
        let e = &self.entries[idx];
        while j < len
            invariant
                j <= len,
                offset + len <= BLOCK_SZ,
                e.data@.len() == BLOCK_SZ,
                out@ =~= e.data@.subrange(offset as int, offset as int + j as int),
            decreases len - j,
        {
            out.push(e.data[offset + j]);
            proof {
                assert(out@ =~= e.data@.subrange(offset as int, offset as int + j as int + 1));
            }
            j += 1;
        }
        out
    }

    /// Overwrite the byte at `offset` inside block `block_id`.
    pub fn write_byte(&mut self, block_id: usize, offset: usize, v: u8)
        requires
            old(self).wf(),
            block_id < old(self).view().len(),
            offset < BLOCK_SZ,
        ensures
            final(self).wf(),
            final(self).view() == old(self).view().update(
                block_id as int,
                old(self).view()[block_id as int].update(offset as int, v),
            ),
    {
        let idx = self.get_slot(block_id);
        let ghost pre = *self;
        let e = &self.entries[idx];
        let mut d: Vec<u8> = Vec::new();
        let mut j: usize = 0;
        while j < BLOCK_SZ
            invariant
                j <= BLOCK_SZ,
                e.data@.len() == BLOCK_SZ,
                d@ =~= e.data@.take(j as int),
            decreases BLOCK_SZ - j,
        {
            d.push(e.data[j]);
            proof {
                assert(d@ =~= e.data@.take(j as int + 1));
            }
            j += 1;
        }
        proof {
            assert(d@ =~= e.data@);
        }
        d.set(offset, v);
        let bid = self.entries[idx].block_id;
        self.entries.set(idx, CacheEntry { block_id: bid, data: d, dirty: true });
        proof {
            let s_old = pre.entries@;
            let s_new = self.entries@;
            let enew = s_new[idx as int];
            assert(s_new =~= s_old.update(idx as int, enew));
            assert forall|b: int| 0 <= b < self.view().len() implies #[trigger] find_idx(
                s_new,
                b,
            ) == find_idx(s_old, b) by {
                lemma_find_update(s_old, idx as int, enew, b);
            }
            assert forall|b: int|
                0 <= b < self.view().len() && b != block_id implies self.view()[b]
                == pre.view()[b] by {
                lemma_find_props(s_old, b);
                if find_idx(s_old, b) >= 0 {
                    assert(s_old[find_idx(s_old, b)].block_id == b);
                    assert(find_idx(s_old, b) != idx);
                    assert(s_new[find_idx(s_old, b)] == s_old[find_idx(s_old, b)]);
                }
            }
            assert(self.view()[block_id as int] =~= pre.view()[block_id as int].update(
                offset as int,
                v,
            ));
            assert(self.view() =~~= pre.view().update(
                block_id as int,
                pre.view()[block_id as int].update(offset as int, v),
            ));
        }
    }

    /// Overwrite `data.len()` bytes starting at `offset` inside block
    /// `block_id`.
    pub fn write_bytes(&mut self, block_id: usize, offset: usize, data: &Vec<u8>)
        requires
            old(self).wf(),
            block_id < old(self).view().len(),
            offset + data@.len() <= BLOCK_SZ,
        ensures
            final(self).wf(),
            final(self).view() == old(self).view().update(
                block_id as int,
                splice(old(self).view()[block_id as int], offset as int, data@),
            ),
    {
        let n = data.len();
        let mut j: usize = 0;
        while j < n
            invariant
                n == data@.len(),
                j <= n,
                offset + n <= BLOCK_SZ,
                self.wf(),
                old(self).wf(),
                block_id < self.view().len(),
                block_id < old(self).view().len(),
                self.view().len() == old(self).view().len(),
                self.view() =~~= old(self).view().update(
                    block_id as int,
                    splice(
                        old(self).view()[block_id as int],
                        offset as int,
                        data@.take(j as int),
                    ),
                ),
            decreases n - j,
        {
            let ghost mid = *self;
            self.write_byte(block_id, offset + j, data[j]);
            proof {
                lemma_view_block_len(&old(self), block_id as int);
                lemma_view_block_len(&mid, block_id as int);
                assert(self.view() =~~= old(self).view().update(
                    block_id as int,
                    splice(
                        old(self).view()[block_id as int],
                        offset as int,
                        data@.take(j as int + 1),
                    ),
                ));
            }
            j += 1;
        }
        proof {
            assert(data@.take(n as int) =~= data@);
            assert(self.view() =~~= old(self).view().update(
                block_id as int,
                splice(old(self).view()[block_id as int], offset as int, data@),
            ));
        }
    }

    /// sync_all: flush every dirty cached block to the device. Afterwards
    /// the device holds exactly what the cache's view shows.
    pub fn sync_all(&mut self)
        requires
            old(self).wf(),
        ensures
            final(self).wf(),
            final(self).view() == old(self).view(),
            final(self).device.view() == final(self).view(),
    {
        let n = self.entries.len();
        let mut i: usize = 0;
        while i < n
            invariant
                n == self.entries@.len(),
                i <= n,
                self.wf(),
                self.view() =~= old(self).view(),
                self.entries@.len() == old(self).entries@.len(),
                forall|j: int| 0 <= j < i ==> !(#[trigger] self.entries@[j]).dirty,
            decreases n - i,
        {
            if self.entries[i].dirty {
                let ghost pre = *self;
                let e = &self.entries[i];
                let mut d: Vec<u8> = Vec::new();
                let mut j: usize = 0;
                while j < BLOCK_SZ
                    invariant
                        j <= BLOCK_SZ,
                        e.data@.len() == BLOCK_SZ,
                        d@ =~= e.data@.take(j as int),
                    decreases BLOCK_SZ - j,
                {
                    d.push(e.data[j]);
                    proof {
                        assert(d@ =~= e.data@.take(j as int + 1));
                    }
                    j += 1;
                }
                proof {
                    assert(d@ =~= e.data@);
                }
                let bid = self.entries[i].block_id;
                self.device.write_block(bid, &d);
                self.entries.set(i, CacheEntry { block_id: bid, data: d, dirty: false });
                proof {
                    let s_old = pre.entries@;
                    let s_new = self.entries@;
                    let enew = s_new[i as int];
                    assert(s_new =~= s_old.update(i as int, enew));
                    assert forall|b: int| 0 <= b < self.view().len() implies #[trigger] find_idx(
                        s_new,
                        b,
                    ) == find_idx(s_old, b) by {
                        lemma_find_update(s_old, i as int, enew, b);
                    }
                    assert forall|b: int| 0 <= b < self.view().len() implies self.view()[b]
                        == pre.view()[b] by {
                        lemma_find_props(s_old, b);
                        if b == bid {
                            assert(find_idx(s_old, b) == find_idx(s_new, b));
                            assert(s_old[find_idx(s_old, b)].block_id == b);
                        }
                    }
                    assert(self.view() =~= pre.view());
                }
            }
            i += 1;
        }
        proof {
            assert forall|b: int| 0 <= b < self.view().len() implies self.device.view()[b]
                == self.view()[b] by {
                lemma_find_props(self.entries@, b);
            }
            assert(self.device.view() =~= self.view());
        }
    }
}

} // verus!
