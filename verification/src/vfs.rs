//! Virtual filesystem layer over easy-fs: the inode handle the syscall layer
//! works with. A handle is only a locator - the block and byte offset of a
//! disk inode record - and every operation reaches the record afresh through
//! the filesystem's block cache.
use vstd::prelude::*;

use crate::BLOCK_SZ;
use crate::dirent::DIRENT_SZ;
use crate::dirent::DirEntry;
use crate::dirent::spec_name_ok;
use crate::dirent::spec_name_of;
use crate::dirent::spec_inode_id_of;
use crate::dirent::spec_dirent_bytes;
use crate::dirent::lemma_dirent_round_trip;
use crate::efs::EasyFileSystem;
use crate::efs::count_free;
use crate::layout::DiskInode;
use crate::layout::DiskInodeType;
use crate::layout::INODE_SZ;
use crate::layout::INODE_MAX_SIZE;
use crate::layout::spec_inode_valid_at;
use crate::layout::spec_inode_matches;
use crate::layout::spec_inode_locs_ok;
use crate::layout::spec_size_at;
use crate::layout::spec_nlinks_at;
use crate::layout::spec_tag_at;
use crate::layout::spec_ind_at;
use crate::layout::spec_block_at;
use crate::layout::spec_data_blocks;
use crate::layout::spec_content;

verus! {

/// Virtual filesystem layer over easy-fs: a locator for one disk inode.
pub struct Inode {
    pub block_id: usize,
    pub block_offset: usize,
}

/// The logical content of the inode record at (`bid`, `off`): its `size`
/// bytes read through its block pointers.
pub open spec fn spec_content_at(view: Seq<Seq<u8>>, bid: int, off: int) -> Seq<u8> {
    Seq::new(
        spec_size_at(view, bid, off) as nat,
        |i: int|
            view[spec_block_at(view, bid, off, i / (BLOCK_SZ as int)) as int][i % (
            BLOCK_SZ as int)],
    )
}

/// The directory entries the record at (`bid`, `off`) holds: its content cut
/// into fixed-width records, each a name and an inode number.
pub open spec fn spec_dir_entries(view: Seq<Seq<u8>>, bid: int, off: int) -> Seq<(Seq<u8>, u32)> {
    let c = spec_content_at(view, bid, off);
    Seq::new(
        (spec_size_at(view, bid, off) / (DIRENT_SZ as u32)) as nat,
        |k: int|
            (
                spec_name_of(c.subrange(k * (DIRENT_SZ as int), k * (DIRENT_SZ as int) + 32)),
                spec_inode_id_of(c.subrange(k * (DIRENT_SZ as int), k * (DIRENT_SZ as int) + 32)),
            ),
    )
}

/// Index of the first entry named `name`, or -1.
pub open spec fn spec_entry_find(es: Seq<(Seq<u8>, u32)>, name: Seq<u8>) -> int
    decreases es.len(),
{
    if es.len() == 0 {
        -1
    } else if es[0].0 == name {
        0
    } else {
        let r = spec_entry_find(es.drop_first(), name);
        if r == -1 {
            -1
        } else {
            r + 1
        }
    }
}

/// Basic facts about `spec_entry_find`.
pub proof fn lemma_entry_find_props(es: Seq<(Seq<u8>, u32)>, name: Seq<u8>)
    ensures
        -1 <= spec_entry_find(es, name) < es.len(),
        spec_entry_find(es, name) >= 0 ==> es[spec_entry_find(es, name)].0 == name,
        spec_entry_find(es, name) == -1 ==> forall|i: int|
            0 <= i < es.len() ==> (#[trigger] es[i]).0 != name,
    decreases es.len(),
{
    if es.len() > 0 && es[0].0 != name {
        lemma_entry_find_props(es.drop_first(), name);
        if spec_entry_find(es, name) == -1 {
            assert forall|i: int| 0 <= i < es.len() implies (#[trigger] es[i]).0 != name by {
                if i > 0 {
                    assert(es.drop_first()[i - 1] == es[i]);
                }
            }
        }
    }
}

/// If the entries below `i` miss `name` and entry `i` (when present)
/// carries it, `spec_entry_find` returns `i`, or -1 at the length.
pub proof fn lemma_entry_find_at(es: Seq<(Seq<u8>, u32)>, name: Seq<u8>, i: int)
    requires
        0 <= i <= es.len(),
        forall|j: int| 0 <= j < i ==> (#[trigger] es[j]).0 != name,
        i < es.len() ==> es[i].0 == name,
    ensures
        spec_entry_find(es, name) == if i == es.len() {
            -1int
        } else {
            i
        },
    decreases i,
{
    if i > 0 {
        assert(es[0].0 != name);
        assert forall|j: int| 0 <= j < i - 1 implies (#[trigger] es.drop_first()[j]).0 != name by {
            assert(es.drop_first()[j] == es[j + 1]);
        }
        assert(i - 1 < es.drop_first().len() ==> es.drop_first()[i - 1] == es[i]);
        lemma_entry_find_at(es.drop_first(), name, i - 1);
    }
}

/// Whether the record at (`bid`, `off`) is a live inode of filesystem `fs`:
/// decodable and sound, at an allocated slot of the inode area, its data
/// blocks and indirect block allocated in the data area.
pub open spec fn spec_inode_ok(fs: &EasyFileSystem, bid: int, off: int) -> bool {
    &&& spec_inode_valid_at(fs.view(), bid, off)
    &&& fs.inode_area_start_block <= bid < fs.data_area_start_block
    &&& off % (INODE_SZ as int) == 0
    &&& 0 <= fs.spec_inode_id(bid, off) < fs.inode_count
    &&& fs.inode_bitmap@[fs.spec_inode_id(bid, off)]
    &&& forall|i: int|
        0 <= i < spec_data_blocks(spec_size_at(fs.view(), bid, off))
            ==> fs.data_area_start_block <= #[trigger] spec_block_at(fs.view(), bid, off, i)
            && fs.data_bitmap@[spec_block_at(fs.view(), bid, off, i) - fs.data_area_start_block]
    &&& spec_ind_at(fs.view(), bid, off) != 0 ==> fs.data_area_start_block <= spec_ind_at(
        fs.view(),
        bid,
        off,
    ) && fs.data_bitmap@[spec_ind_at(fs.view(), bid, off) - fs.data_area_start_block]
}

/// Whether the record at (`bid`, `off`) is a live directory: a live inode
/// with the directory tag, a whole number of entries, every entry naming an
/// existing inode slot.
pub open spec fn spec_dir_ok(fs: &EasyFileSystem, bid: int, off: int) -> bool {
    &&& spec_inode_ok(fs, bid, off)
    &&& spec_tag_at(fs.view(), bid, off) == 1u8
    &&& spec_size_at(fs.view(), bid, off) % (DIRENT_SZ as u32) == 0
    &&& forall|k: int|
        0 <= k < spec_dir_entries(fs.view(), bid, off).len() ==> (#[trigger] spec_dir_entries(
            fs.view(),
            bid,
            off,
        )[k]).1 < fs.inode_count
}

/// Whether two filesystem states are observably the same: same bytes, same
/// free maps, same geometry.
pub open spec fn spec_same_fs(a: &EasyFileSystem, b: &EasyFileSystem) -> bool {
    &&& a.view() == b.view()
    &&& a.inode_bitmap@ == b.inode_bitmap@
    &&& a.data_bitmap@ == b.data_bitmap@
    &&& a.inode_area_start_block == b.inode_area_start_block
    &&& a.data_area_start_block == b.data_area_start_block
    &&& a.inode_count == b.inode_count
}

/// A loaded inode agreeing with its record reads the same content bytes.
pub proof fn lemma_content_at_matches(d: &DiskInode, view: Seq<Seq<u8>>, bid: int, off: int)
    requires
        spec_inode_matches(d, view, bid, off),
        d.wf(),
    ensures
        spec_content(d, view) == spec_content_at(view, bid, off),
{
    assert forall|i: int|
        0 <= i < d.size implies spec_content(d, view)[i] == spec_content_at(view, bid, off)[i] by {
        assert(0 <= i / (BLOCK_SZ as int) < d.blocks@.len());
    }
    assert(spec_content(d, view) =~= spec_content_at(view, bid, off));
}

/// Whether `a` and `b` hold the same bytes.
pub fn bytes_eq(a: &[u8], b: &[u8]) -> (r: bool)
    ensures
        r == (a@ == b@),
{
    if a.len() != b.len() {
        proof {
            assert(a@ != b@);
        }
        return false;
    }
    let n = a.len();
    let mut i: usize = 0;
    while i < n
        invariant
            n == a@.len(),
            n == b@.len(),
            i <= n,
            forall|j: int| 0 <= j < i ==> a@[j] == b@[j],
        decreases n - i,
    {
        if a[i] != b[i] {
            proof {
                assert(a@[i as int] != b@[i as int]);
            }
            return false;
        }
        i += 1;
    }
    proof {
        assert(a@ =~= b@);
    }
    true
}

impl Inode {
    /// Create a vfs inode handle for the record at (`block_id`,
    /// `block_offset`).
    pub fn new(block_id: u32, block_offset: usize) -> (r: Inode)
        ensures
            r.block_id == block_id,
            r.block_offset == block_offset,
    {
        Inode { block_id: block_id as usize, block_offset }
    }

    /// Whether this handle points at a live inode of `fs`.
    pub open spec fn ok(&self, fs: &EasyFileSystem) -> bool {
        spec_inode_ok(fs, self.block_id as int, self.block_offset as int)
    }

    /// Whether this handle points at a live directory of `fs`.
    pub open spec fn dir_ok(&self, fs: &EasyFileSystem) -> bool {
        spec_dir_ok(fs, self.block_id as int, self.block_offset as int)
    }

    /// The directory entries of this handle's inode.
    pub open spec fn entries(&self, fs: &EasyFileSystem) -> Seq<(Seq<u8>, u32)> {
        spec_dir_entries(fs.view(), self.block_id as int, self.block_offset as int)
    }

    /// Load this handle's disk inode.
    fn load_disk_inode(&self, fs: &mut EasyFileSystem) -> (r: DiskInode)
        requires
            old(fs).wf(),
            self.ok(&old(fs)),
        ensures
            final(fs).wf(),
            spec_same_fs(&*final(fs), &old(fs)),
            spec_inode_matches(&r, old(fs).view(), self.block_id as int, self.block_offset as int),
            r.wf(),
            spec_inode_locs_ok(&r, old(fs).view().len() as int, self.block_id as int),
            forall|i: int|
                0 <= i < r.blocks@.len() ==> old(fs).data_area_start_block <= #[trigger] r.blocks@[i]
                    && old(fs).data_bitmap@[r.blocks@[i] - old(fs).data_area_start_block],
            r.indirect1 != 0 ==> old(fs).data_area_start_block <= r.indirect1 && old(
                fs,
            ).data_bitmap@[r.indirect1 - old(fs).data_area_start_block],
    {
        DiskInode::load(&mut fs.cache, self.block_id, self.block_offset)
    }

    /// Inode number this handle locates.
    pub fn get_inode_id(&self, fs: &EasyFileSystem) -> (r: Option<u64>)
        requires
            fs.wf(),
            self.ok(fs),
        ensures
            r == Some(
                fs.spec_inode_id(self.block_id as int, self.block_offset as int) as u64,
            ),
    {
        Some(fs.get_disk_inode_id(self.block_id as u32, self.block_offset) as u64)
    }

    /// check inode is a dir for VFS
    pub fn is_dir(&self, fs: &mut EasyFileSystem) -> (r: bool)
        requires
            old(fs).wf(),
            self.ok(&old(fs)),
        ensures
            final(fs).wf(),
            spec_same_fs(&*final(fs), &old(fs)),
            r == (spec_tag_at(old(fs).view(), self.block_id as int, self.block_offset as int)
                == 1u8),
    {
        let d = self.load_disk_inode(fs);
        d.is_dir()
    }

    /// check inode is a file for VFS
    pub fn is_file(&self, fs: &mut EasyFileSystem) -> (r: bool)
        requires
            old(fs).wf(),
            self.ok(&old(fs)),
        ensures
            final(fs).wf(),
            spec_same_fs(&*final(fs), &old(fs)),
            r == (spec_tag_at(old(fs).view(), self.block_id as int, self.block_offset as int)
                != 1u8),
    {
        let d = self.load_disk_inode(fs);
        d.is_file()
    }

    /// check inode links for VFS
    pub fn link_nums(&self, fs: &mut EasyFileSystem) -> (r: u32)
        requires
            old(fs).wf(),
            self.ok(&old(fs)),
        ensures
            final(fs).wf(),
            spec_same_fs(&*final(fs), &old(fs)),
            r == spec_nlinks_at(old(fs).view(), self.block_id as int, self.block_offset as int),
    {
        let d = self.load_disk_inode(fs);
        d.linknum()
    }

    /// Find inode number under this directory by name: the number of the
    /// first entry carrying `name`, or nothing.
    fn find_inode_id(&self, fs: &mut EasyFileSystem, name: &[u8]) -> (r: Option<u32>)
        requires
            old(fs).wf(),
            self.dir_ok(&old(fs)),
        ensures
            final(fs).wf(),
            spec_same_fs(&*final(fs), &old(fs)),
            r.is_some() <==> spec_entry_find(self.entries(&old(fs)), name@) >= 0,
            r.is_some() ==> r == Some(
                self.entries(&old(fs))[spec_entry_find(self.entries(&old(fs)), name@)].1,
            ),
    {
        let ghost es = self.entries(&old(fs));
        let d = self.load_disk_inode(fs);
        proof {
            lemma_content_at_matches(
                &d,
                old(fs).view(),
                self.block_id as int,
                self.block_offset as int,
            );
        }
        let file_count = (d.size as usize) / DIRENT_SZ;
        let mut buf: Vec<u8> = Vec::new();
        let mut z: usize = 0;
        while z < DIRENT_SZ
            invariant
                z <= DIRENT_SZ,
                buf@.len() == z,
            decreases DIRENT_SZ - z,
        {
            buf.push(0u8);
            z += 1;
        }
        let mut k: usize = 0;
        while k < file_count
            invariant
                fs.wf(),
                spec_same_fs(fs, &old(fs)),
                self.dir_ok(&old(fs)),
                d.wf(),
                spec_inode_matches(
                    &d,
                    old(fs).view(),
                    self.block_id as int,
                    self.block_offset as int,
                ),
                spec_inode_locs_ok(&d, old(fs).view().len() as int, self.block_id as int),
                spec_content(&d, old(fs).view()) == spec_content_at(
                    old(fs).view(),
                    self.block_id as int,
                    self.block_offset as int,
                ),
                es == self.entries(&old(fs)),
                file_count == es.len(),
                file_count == d.size as int / (DIRENT_SZ as int),
                k <= file_count,
                buf@.len() == DIRENT_SZ,
                forall|j: int| 0 <= j < k ==> (#[trigger] es[j]).0 != name@,
            decreases file_count - k,
        {
            let _n = d.read_at(DIRENT_SZ * k, &mut buf, &mut fs.cache);
            proof {
                assert(buf@ =~= spec_content_at(
                    old(fs).view(),
                    self.block_id as int,
                    self.block_offset as int,
                ).subrange(
                    k as int * (DIRENT_SZ as int),
                    k as int * (DIRENT_SZ as int) + 32,
                ));
            }
            let dirent = DirEntry::from_bytes(buf.as_slice());
            if bytes_eq(dirent.name().as_slice(), name) {
                proof {
                    lemma_entry_find_at(es, name@, k as int);
                }
                return Some(dirent.inode_id());
            }
            k += 1;
        }
        proof {
            lemma_entry_find_at(es, name@, file_count as int);
        }
        None
    }

    /// Find inode under current inode by name: a fresh handle for the first
    /// entry carrying `name`, or nothing.
    pub fn find(&self, fs: &mut EasyFileSystem, name: &[u8]) -> (r: Option<Inode>)
        requires
            old(fs).wf(),
            self.dir_ok(&old(fs)),
        ensures
            final(fs).wf(),
            spec_same_fs(&*final(fs), &old(fs)),
            r.is_some() <==> spec_entry_find(self.entries(&old(fs)), name@) >= 0,
            r.is_some() ==> {
                let id = self.entries(&old(fs))[spec_entry_find(self.entries(&old(fs)), name@)].1;
                let h = r.unwrap();
                h.block_id == old(fs).spec_inode_pos(id).0 && h.block_offset == old(
                    fs,
                ).spec_inode_pos(id).1
            },
    {
        proof {
            lemma_entry_find_props(self.entries(&old(fs)), name@);
        }
        match self.find_inode_id(fs, name) {
            Some(inode_id) => {
                let (block_id, block_offset) = fs.get_disk_inode_pos(inode_id);
                Some(Inode::new(block_id, block_offset))
            },
            None => None,
        }
    }

    /// List inodes under current inode: every name in the directory, in
    /// storage order.
    pub fn ls(&self, fs: &mut EasyFileSystem) -> (r: Vec<Vec<u8>>)
        requires
            old(fs).wf(),
            self.dir_ok(&old(fs)),
        ensures
            final(fs).wf(),
            spec_same_fs(&*final(fs), &old(fs)),
            r@.len() == self.entries(&old(fs)).len(),
            forall|k: int|
                0 <= k < r@.len() ==> (#[trigger] r@[k])@ == self.entries(&old(fs))[k].0,
    {
        let ghost es = self.entries(&old(fs));
        let d = self.load_disk_inode(fs);
        proof {
            lemma_content_at_matches(
                &d,
                old(fs).view(),
                self.block_id as int,
                self.block_offset as int,
            );
        }
        let file_count = (d.size as usize) / DIRENT_SZ;
        let mut buf: Vec<u8> = Vec::new();
        let mut z: usize = 0;
        while z < DIRENT_SZ
            invariant
                z <= DIRENT_SZ,
                buf@.len() == z,
            decreases DIRENT_SZ - z,
        {
            buf.push(0u8);
            z += 1;
        }
        let mut out: Vec<Vec<u8>> = Vec::new();
        let mut k: usize = 0;
        while k < file_count
            invariant
                fs.wf(),
                spec_same_fs(fs, &old(fs)),
                self.dir_ok(&old(fs)),
                d.wf(),
                spec_inode_matches(
                    &d,
                    old(fs).view(),
                    self.block_id as int,
                    self.block_offset as int,
                ),
                spec_inode_locs_ok(&d, old(fs).view().len() as int, self.block_id as int),
                spec_content(&d, old(fs).view()) == spec_content_at(
                    old(fs).view(),
                    self.block_id as int,
                    self.block_offset as int,
                ),
                es == self.entries(&old(fs)),
                file_count == es.len(),
                file_count == d.size as int / (DIRENT_SZ as int),
                k <= file_count,
                buf@.len() == DIRENT_SZ,
                out@.len() == k,
                forall|j: int| 0 <= j < k ==> (#[trigger] out@[j])@ == es[j].0,
            decreases file_count - k,
        {
            let _n = d.read_at(DIRENT_SZ * k, &mut buf, &mut fs.cache);
            proof {
                assert(buf@ =~= spec_content_at(
                    old(fs).view(),
                    self.block_id as int,
                    self.block_offset as int,
                ).subrange(
                    k as int * (DIRENT_SZ as int),
                    k as int * (DIRENT_SZ as int) + 32,
                ));
            }
            let dirent = DirEntry::from_bytes(buf.as_slice());
            let name = dirent.name().clone();
            proof {
                assert(name@ == es[k as int].0);
            }
            out.push(name);
            k += 1;
        }
        out
    }
}

/// A store that rewrites one inode record and a given set of data blocks
/// leaves every other record - and everything such a record reaches -
/// exactly as it was.
pub proof fn lemma_other_record_preserved(
    v0: Seq<Seq<u8>>,
    v1: Seq<Seq<u8>>,
    wbid: int,
    woff: int,
    w: spec_fn(int) -> bool,
    obid: int,
    ooff: int,
)
    requires
        v1.len() == v0.len(),
        0 <= wbid < v0.len(),
        v0[wbid].len() == BLOCK_SZ,
        v1[wbid].len() == BLOCK_SZ,
        0 <= woff,
        woff + INODE_SZ <= BLOCK_SZ,
        woff % (INODE_SZ as int) == 0,
        forall|b: int| 0 <= b < v0.len() && b != wbid && !w(b) ==> v1[b] == v0[b],
        forall|k: int|
            0 <= k < BLOCK_SZ && !(woff <= k < woff + INODE_SZ) ==> v1[wbid][k] == v0[wbid][k],
        spec_inode_valid_at(v0, obid, ooff),
        ooff % (INODE_SZ as int) == 0,
        !(obid == wbid && ooff == woff),
        !w(obid),
        spec_ind_at(v0, obid, ooff) != 0 ==> spec_ind_at(v0, obid, ooff) != wbid && !w(
            spec_ind_at(v0, obid, ooff) as int,
        ),
        forall|i: int|
            0 <= i < spec_data_blocks(spec_size_at(v0, obid, ooff)) ==> #[trigger] spec_block_at(
                v0,
                obid,
                ooff,
                i,
            ) != wbid && !w(spec_block_at(v0, obid, ooff, i) as int),
    ensures
        spec_size_at(v1, obid, ooff) == spec_size_at(v0, obid, ooff),
        spec_nlinks_at(v1, obid, ooff) == spec_nlinks_at(v0, obid, ooff),
        spec_tag_at(v1, obid, ooff) == spec_tag_at(v0, obid, ooff),
        spec_ind_at(v1, obid, ooff) == spec_ind_at(v0, obid, ooff),
        forall|i: int|
            0 <= i < spec_data_blocks(spec_size_at(v0, obid, ooff)) ==> #[trigger] spec_block_at(
                v1,
                obid,
                ooff,
                i,
            ) == spec_block_at(v0, obid, ooff, i),
        spec_inode_valid_at(v1, obid, ooff),
        spec_content_at(v1, obid, ooff) == spec_content_at(v0, obid, ooff),
        spec_dir_entries(v1, obid, ooff) == spec_dir_entries(v0, obid, ooff),
{
    if obid == wbid {
        assert(ooff + INODE_SZ <= woff || woff + INODE_SZ <= ooff);
        assert(v1[obid].subrange(ooff, ooff + 4) =~= v0[obid].subrange(ooff, ooff + 4));
        assert(v1[obid].subrange(ooff + 4, ooff + 8) =~= v0[obid].subrange(ooff + 4, ooff + 8));
        assert(v1[obid][ooff + 8] == v0[obid][ooff + 8]);
        assert(v1[obid].subrange(ooff + 12, ooff + 16) =~= v0[obid].subrange(
            ooff + 12,
            ooff + 16,
        ));
        assert forall|i: int|
            0 <= i < crate::layout::INODE_DIRECT_COUNT implies #[trigger] v1[obid].subrange(
            ooff + 16 + 4 * i,
            ooff + 20 + 4 * i,
        ) =~= v0[obid].subrange(ooff + 16 + 4 * i, ooff + 20 + 4 * i) by {}
    } else {
        assert(v1[obid] == v0[obid]);
    }
    let nd = spec_data_blocks(spec_size_at(v0, obid, ooff));
    assert forall|i: int| 0 <= i < nd implies #[trigger] spec_block_at(v1, obid, ooff, i)
        == spec_block_at(v0, obid, ooff, i) by {
        if i >= crate::layout::INODE_DIRECT_COUNT {
            assert(v1[spec_ind_at(v0, obid, ooff) as int] == v0[spec_ind_at(v0, obid, ooff) as int]);
        } else {
            if obid == wbid {
                assert(v1[obid].subrange(ooff + 16 + 4 * i, ooff + 20 + 4 * i)
                    =~= v0[obid].subrange(ooff + 16 + 4 * i, ooff + 20 + 4 * i));
            }
        }
    }
    assert forall|m: int|
        0 <= m < spec_size_at(v0, obid, ooff) implies spec_content_at(v1, obid, ooff)[m]
        == spec_content_at(v0, obid, ooff)[m] by {
        let bsz = BLOCK_SZ as int;
        assert(0 <= m / bsz < nd);
        assert(spec_block_at(v1, obid, ooff, m / bsz) == spec_block_at(v0, obid, ooff, m / bsz));
        assert(v1[spec_block_at(v0, obid, ooff, m / bsz) as int] == v0[spec_block_at(
            v0,
            obid,
            ooff,
            m / bsz,
        ) as int]);
    }
    assert(spec_content_at(v1, obid, ooff) =~= spec_content_at(v0, obid, ooff));
    assert(spec_dir_entries(v1, obid, ooff) =~= spec_dir_entries(v0, obid, ooff));
}

impl Inode {
    /// Append one directory entry to this directory: grow it by one record
    /// width with freshly allocated blocks and write the entry at the new
    /// tail.
    fn append_dirent(&self, fs: &mut EasyFileSystem, name: &[u8], id: u32) -> (r: ())
        requires
            old(fs).wf(),
            self.dir_ok(&old(fs)),
            spec_name_ok(name@),
            id < old(fs).inode_count,
            count_free(old(fs).data_bitmap@) >= 2,
            spec_size_at(old(fs).view(), self.block_id as int, self.block_offset as int) + 32
                <= INODE_MAX_SIZE,
        ensures
            final(fs).wf(),
            self.dir_ok(&*final(fs)),
            self.entries(&*final(fs)) == self.entries(&old(fs)).push((name@, id)),
            final(fs).view().len() == old(fs).view().len(),
            final(fs).inode_bitmap@ == old(fs).inode_bitmap@,
            final(fs).inode_area_start_block == old(fs).inode_area_start_block,
            final(fs).data_area_start_block == old(fs).data_area_start_block,
            final(fs).inode_count == old(fs).inode_count,
            forall|j: int|
                0 <= j < old(fs).data_bitmap@.len() && old(fs).data_bitmap@[j]
                    ==> final(fs).data_bitmap@[j],
            count_free(final(fs).data_bitmap@) >= count_free(old(fs).data_bitmap@) - 2,
            spec_nlinks_at(final(fs).view(), self.block_id as int, self.block_offset as int)
                == spec_nlinks_at(old(fs).view(), self.block_id as int, self.block_offset as int),
            // every other record block keeps its bytes, except this record's slot
            forall|b: int|
                0 <= b < old(fs).data_area_start_block && b != self.block_id
                    ==> final(fs).view()[b] == old(fs).view()[b],
            forall|k: int|
                0 <= k < BLOCK_SZ && !(self.block_offset <= k < self.block_offset + INODE_SZ)
                    ==> final(fs).view()[self.block_id as int][k]
                    == old(fs).view()[self.block_id as int][k],
            // every data block that was allocated and does not carry this
            // directory keeps its bytes
            forall|b: int|
                old(fs).data_area_start_block <= b < old(fs).view().len() && old(
                    fs,
                ).data_bitmap@[b - old(fs).data_area_start_block] && b != spec_ind_at(
                    old(fs).view(),
                    self.block_id as int,
                    self.block_offset as int,
                ) && !(exists|i: int|
                    0 <= i < spec_data_blocks(
                        spec_size_at(old(fs).view(), self.block_id as int, self.block_offset as int),
                    ) && #[trigger] spec_block_at(
                        old(fs).view(),
                        self.block_id as int,
                        self.block_offset as int,
                        i,
                    ) == b) ==> final(fs).view()[b] == old(fs).view()[b],
    {
        let ghost view0 = old(fs).view();
        let ghost bid = self.block_id as int;
        let ghost off = self.block_offset as int;
        let ghost es0 = self.entries(&old(fs));
        let mut d = self.load_disk_inode(fs);
        proof {
            lemma_content_at_matches(&d, view0, bid, off);
        }
        let file_count = (d.size as usize) / DIRENT_SZ;
        let new_size = d.size + DIRENT_SZ as u32;
        let needed = d.blocks_num_needed(new_size);
        let mut v: Vec<u32> = Vec::new();
        let mut i: u32 = 0;
        while i < needed
            invariant
                i <= needed,
                fs.wf(),
                fs.view() == view0,
                fs.inode_bitmap@ == old(fs).inode_bitmap@,
                fs.inode_area_start_block == old(fs).inode_area_start_block,
                fs.data_area_start_block == old(fs).data_area_start_block,
                fs.inode_count == old(fs).inode_count,
                needed <= 2,
                count_free(old(fs).data_bitmap@) >= 2,
                view0 == old(fs).view(),
                fs.data_bitmap@.len() == old(fs).data_bitmap@.len(),
                old(fs).data_bitmap@.len() == view0.len() - old(fs).data_area_start_block,
                count_free(fs.data_bitmap@) == count_free(old(fs).data_bitmap@) - i,
                v@.len() == i,
                forall|j: int|
                    0 <= j < old(fs).data_bitmap@.len() && old(fs).data_bitmap@[j]
                        ==> fs.data_bitmap@[j],
                forall|j: int|
                    0 <= j < i ==> old(fs).data_area_start_block <= #[trigger] v@[j]
                        < old(fs).view().len(),
                forall|j: int|
                    0 <= j < i ==> !old(fs).data_bitmap@[#[trigger] v@[j]
                        - old(fs).data_area_start_block],
                forall|j: int|
                    0 <= j < i ==> fs.data_bitmap@[#[trigger] v@[j]
                        - old(fs).data_area_start_block],
                forall|j1: int, j2: int| 0 <= j1 < j2 < i ==> v@[j1] != v@[j2],
            decreases needed - i,
        {
            let ghost dpre = fs.data_bitmap@;
            let ghost vpre = v@;
            let nb = fs.alloc_data();
            v.push(nb);
            proof {
                assert forall|j: int|
                    0 <= j < old(fs).data_bitmap@.len() && old(fs).data_bitmap@[j]
                        implies fs.data_bitmap@[j] by {
                    assert(dpre[j]);
                }
                assert forall|j: int|
                    0 <= j < i + 1 implies old(fs).data_area_start_block <= #[trigger] v@[j]
                    < old(fs).view().len() by {
                    if j < i {
                        assert(v@[j] == vpre[j]);
                    }
                }
                assert forall|j: int|
                    0 <= j < i + 1 implies !old(fs).data_bitmap@[#[trigger] v@[j]
                        - old(fs).data_area_start_block] by {
                    if j < i {
                        assert(v@[j] == vpre[j]);
                    }
                }
                assert forall|j: int|
                    0 <= j < i + 1 implies fs.data_bitmap@[#[trigger] v@[j]
                        - old(fs).data_area_start_block] by {
                    if j < i {
                        assert(v@[j] == vpre[j]);
                        assert(dpre[v@[j] - old(fs).data_area_start_block]);
                    }
                }
                assert forall|j1: int, j2: int|
                    0 <= j1 < j2 < i + 1 implies v@[j1] != v@[j2] by {
                    if j2 == i as int {
                        assert(dpre[v@[j1] - old(fs).data_area_start_block]);
                        assert(!dpre[v@[j2] - old(fs).data_area_start_block]);
                    }
                }
            }
            i += 1;
        }
        proof {
            assert forall|j: int| 0 <= j < v@.len() implies #[trigger] v@[j] != 0u32 by {
                assert(v@[j] >= old(fs).data_area_start_block >= 1);
            }
            assert forall|j: int| 0 <= j < v@.len() implies #[trigger] v@[j] as int != bid by {
                assert(v@[j] >= old(fs).data_area_start_block);
            }
        }
        let ghost vseq = v@;
        let ghost dmid = fs.data_bitmap@;
        d.increase_size(new_size, v);
        proof {
            // the grown inode still points only at sound, allocated blocks
            assert forall|j: int|
                0 <= j < d.blocks@.len() implies old(fs).data_area_start_block
                <= #[trigger] d.blocks@[j] && fs.data_bitmap@[d.blocks@[j]
                - old(fs).data_area_start_block] by {}
            assert forall|j1: int, j2: int|
                0 <= j1 < j2 < d.blocks@.len() implies #[trigger] d.blocks@[j1]
                != #[trigger] d.blocks@[j2] by {}
            assert(spec_inode_locs_ok(&d, view0.len() as int, bid));
        }
        let eb = DirEntry::new(name, id).as_bytes();
        let woff = file_count * DIRENT_SZ;
        let wr = d.write_at(woff, eb.as_slice(), &mut fs.cache);
        let ghost view1 = fs.cache.view();
        d.store(&mut fs.cache, self.block_id, self.block_offset);
        proof {
            let view2 = fs.cache.view();
            // the entry bytes written at the tail survive the record store:
            // the record block and the indirect block carry no content
            assert(wr == 32);
            assert forall|m: int|
                0 <= m < new_size implies spec_content(&d, view2)[m] == spec_content(
                &d,
                view1,
            )[m] by {
                let bsz = BLOCK_SZ as int;
                assert(0 <= m / bsz < d.blocks@.len());
                assert(view2[d.blocks@[m / bsz] as int] == view1[d.blocks@[m / bsz] as int]);
            }
            lemma_content_at_matches(&d, view2, bid, off);
            // old entries keep their bytes
            assert forall|m: int|
                0 <= m < es0.len() * 32 implies spec_content(&d, view2)[m] == spec_content_at(
                view0,
                bid,
                off,
            )[m] by {
                let bsz = BLOCK_SZ as int;
                assert(0 <= m / bsz < spec_data_blocks(d.size));
                assert(spec_content(&d, view1)[m] == spec_content(&d, view0)[m]);
                assert(0 <= m / bsz < spec_data_blocks(
                    spec_size_at(view0, bid, off),
                ));
                assert(spec_content(&d, view0)[m] == spec_content_at(view0, bid, off)[m]);
            }
            // and the new tail holds the encoded entry
            assert forall|j: int| 0 <= j < 32 implies spec_content(&d, view2)[es0.len() * 32 + j]
                == spec_dirent_bytes(name@, id)[j] by {
                assert(spec_content(&d, view1)[es0.len() * 32 + j] == eb@[j]);
            }
            let esn = spec_dir_entries(view2, bid, off);
            assert(esn.len() == es0.len() + 1);
            assert forall|k: int| 0 <= k < es0.len() implies esn[k] == es0[k] by {
                assert(spec_content_at(view2, bid, off).subrange(k * 32, k * 32 + 32)
                    =~= spec_content_at(view0, bid, off).subrange(k * 32, k * 32 + 32));
            }
            assert(spec_content_at(view2, bid, off).subrange(
                es0.len() as int * 32,
                es0.len() as int * 32 + 32,
            ) =~= spec_dirent_bytes(name@, id));
            lemma_dirent_round_trip(name@, id);
            assert(esn[es0.len() as int] == (name@, id));
            assert(esn =~= es0.push((name@, id)));
            // frames: the inode area outside this record and every
            // allocated data block not carrying this directory are untouched
            let startb = old(fs).data_area_start_block as int;
            assert forall|b: int|
                0 <= b < startb && b != bid implies view2[b] == view0[b] by {
                assert(!crate::layout::spec_is_data_block(&d, b));
                assert(view1[b] == view0[b]);
                assert(d.indirect1 != 0 ==> d.indirect1 as int != b);
                assert(view2[b] == view1[b]);
            }
            assert forall|k: int|
                0 <= k < BLOCK_SZ && !(off <= k < off + INODE_SZ) implies view2[bid][k]
                == view0[bid][k] by {
                assert(!crate::layout::spec_is_data_block(&d, bid));
                assert(view1[bid] == view0[bid]);
            }
            assert forall|b: int|
                startb <= b < view0.len() && old(fs).data_bitmap@[b - startb] && b != spec_ind_at(
                    view0,
                    bid,
                    off,
                ) && !(exists|i2: int|
                    0 <= i2 < spec_data_blocks(spec_size_at(view0, bid, off))
                        && #[trigger] spec_block_at(view0, bid, off, i2) == b) implies view2[b]
                == view0[b] by {
                assert forall|i2: int|
                    0 <= i2 < d.blocks@.len() implies #[trigger] d.blocks@[i2] as int != b by {
                    if i2 < spec_data_blocks(spec_size_at(view0, bid, off)) {
                        assert(spec_block_at(view0, bid, off, i2) == d.blocks@[i2]);
                    } else {
                        assert(!old(fs).data_bitmap@[d.blocks@[i2] - startb]);
                    }
                }
                assert(!crate::layout::spec_is_data_block(&d, b));
                assert(view1[b] == view0[b]);
                assert(d.indirect1 != 0 ==> d.indirect1 as int != b);
                assert(view2[b] == view1[b]);
            }
        }
    }
}

impl Inode {
    /// Create inode under current inode by name: nothing when the name is
    /// taken, otherwise a fresh empty file with one link, durably entered in
    /// this directory.
    pub fn create(&self, fs: &mut EasyFileSystem, name: &[u8]) -> (r: Option<Inode>)
        requires
            old(fs).wf(),
            self.dir_ok(&old(fs)),
            spec_name_ok(name@),
            count_free(old(fs).inode_bitmap@) >= 1,
            count_free(old(fs).data_bitmap@) >= 2,
            spec_size_at(old(fs).view(), self.block_id as int, self.block_offset as int) + 32
                <= INODE_MAX_SIZE,
        ensures
            final(fs).wf(),
            r.is_none() <==> spec_entry_find(self.entries(&old(fs)), name@) >= 0,
            r.is_none() ==> spec_same_fs(&*final(fs), &old(fs)),
            r.is_some() ==> {
                let id = crate::efs::first_free(old(fs).inode_bitmap@) as u32;
                let h = r.unwrap();
                &&& h.block_id == old(fs).spec_inode_pos(id).0
                &&& h.block_offset == old(fs).spec_inode_pos(id).1
                &&& self.dir_ok(&*final(fs))
                &&& self.entries(&*final(fs)) == self.entries(&old(fs)).push((name@, id))
                &&& h.ok(&*final(fs))
                &&& spec_tag_at(final(fs).view(), h.block_id as int, h.block_offset as int) != 1u8
                &&& spec_size_at(final(fs).view(), h.block_id as int, h.block_offset as int)
                    == 0u32
                &&& spec_nlinks_at(final(fs).view(), h.block_id as int, h.block_offset as int)
                    == 1u32
                &&& final(fs).inode_bitmap@ == old(fs).inode_bitmap@.update(id as int, true)
                &&& final(fs).inode_count == old(fs).inode_count
                &&& final(fs).cache.device.view() == final(fs).view()
            },
    {
        let ghost view0 = old(fs).view();
        let ghost bid = self.block_id as int;
        let ghost off = self.block_offset as int;
        let ghost es0 = self.entries(&old(fs));
        proof {
            lemma_entry_find_props(es0, name@);
        }
        if self.find_inode_id(fs, name).is_some() {
            return None;
        }
        // a fresh inode slot, initialized as an empty file
        let new_inode_id = fs.alloc_inode();
        let (new_inode_block_id, new_inode_block_offset) = fs.get_disk_inode_pos(new_inode_id);
        let mut new_inode = DiskInode {
            type_: DiskInodeType::File,
            size: 0,
            nlinks: 1,
            blocks: Vec::new(),
            indirect1: 0,
        };
        new_inode.initialize(DiskInodeType::File);
        let ghost view_a = fs.view();
        new_inode.store(&mut fs.cache, new_inode_block_id as usize, new_inode_block_offset);
        proof {
            // the directory's record is elsewhere in the inode area
            fs.lemma_inode_pos_id_inverse(new_inode_id);
            let nbid = new_inode_block_id as int;
            let noff = new_inode_block_offset as int;
            assert(fs.spec_inode_id(nbid, noff) == new_inode_id);
            assert(!(nbid == bid && noff == off));
            crate::block_cache::lemma_view_block_len(&fs.cache, nbid);
            assert(view_a == view0);
            crate::block_cache::lemma_view_block_len(&old(fs).cache, nbid);
            lemma_other_record_preserved(
                view_a,
                fs.view(),
                nbid,
                noff,
                (|b: int| false),
                bid,
                off,
            );
            assert(self.dir_ok(fs));
            assert(self.entries(fs) =~= es0);
        }
        let ghost view_b = fs.view();
        self.append_dirent(fs, name, new_inode_id);
        proof {
            // the fresh record survives the directory update
            let nbid = new_inode_block_id as int;
            let noff = new_inode_block_offset as int;
            if nbid == bid {
                assert forall|k: int|
                    0 <= k < BLOCK_SZ && !(off <= k < off + INODE_SZ) implies fs.view()[nbid][k]
                    == view_b[nbid][k] by {}
                assert(fs.view()[nbid].subrange(noff, noff + 4) =~= view_b[nbid].subrange(
                    noff,
                    noff + 4,
                ));
                assert(fs.view()[nbid].subrange(noff + 4, noff + 8) =~= view_b[nbid].subrange(
                    noff + 4,
                    noff + 8,
                ));
                assert(fs.view()[nbid][noff + 8] == view_b[nbid][noff + 8]);
                assert(fs.view()[nbid].subrange(noff + 12, noff + 16) =~= view_b[nbid].subrange(
                    noff + 12,
                    noff + 16,
                ));
            } else {
                assert(fs.view()[nbid] == view_b[nbid]);
                assert(fs.view()[nbid].subrange(noff, noff + 4) =~= view_b[nbid].subrange(
                    noff,
                    noff + 4,
                ));
                assert(fs.view()[nbid].subrange(noff + 4, noff + 8) =~= view_b[nbid].subrange(
                    noff + 4,
                    noff + 8,
                ));
                assert(fs.view()[nbid].subrange(noff + 12, noff + 16) =~= view_b[nbid].subrange(
                    noff + 12,
                    noff + 16,
                ));
            }
            assert(spec_size_at(fs.view(), nbid, noff) == 0u32);
            assert(spec_nlinks_at(fs.view(), nbid, noff) == 1u32);
            assert(spec_tag_at(fs.view(), nbid, noff) == spec_tag_at(view_b, nbid, noff));
            assert(spec_ind_at(fs.view(), nbid, noff) == 0u32);
            assert(spec_inode_valid_at(fs.view(), nbid, noff));
        }
        fs.cache.sync_all();
        Some(Inode::new(new_inode_block_id, new_inode_block_offset))
    }
}

/// Whether the inodes at the two record slots share no data or indirect
/// block.
pub open spec fn spec_inodes_disjoint(
    view: Seq<Seq<u8>>,
    abid: int,
    aoff: int,
    bbid: int,
    boff: int,
) -> bool {
    &&& forall|i: int, j: int|
        0 <= i < spec_data_blocks(spec_size_at(view, abid, aoff)) && 0 <= j < spec_data_blocks(
            spec_size_at(view, bbid, boff),
        ) ==> #[trigger] spec_block_at(view, abid, aoff, i) != #[trigger] spec_block_at(
            view,
            bbid,
            boff,
            j,
        )
    &&& spec_ind_at(view, abid, aoff) != 0 ==> forall|j: int|
        0 <= j < spec_data_blocks(spec_size_at(view, bbid, boff)) ==> spec_ind_at(view, abid, aoff)
            != #[trigger] spec_block_at(view, bbid, boff, j)
    &&& spec_ind_at(view, bbid, boff) != 0 ==> forall|i: int|
        0 <= i < spec_data_blocks(spec_size_at(view, abid, aoff)) ==> spec_ind_at(view, bbid, boff)
            != #[trigger] spec_block_at(view, abid, aoff, i)
    &&& (spec_ind_at(view, abid, aoff) != 0 && spec_ind_at(view, bbid, boff) != 0 ==> spec_ind_at(
        view,
        abid,
        aoff,
    ) != spec_ind_at(view, bbid, boff))
}

impl Inode {
    /// new linke new name file with name file: raise the file's link count
    /// and enter it in this directory under the new name; nothing when the
    /// name is taken. Unlike `create`, no full flush follows: the change
    /// reaches the device at the next sync.
    pub fn link(&self, fs: &mut EasyFileSystem, src_inode: &Inode, new_name: &[u8]) -> (r: Option<
        Inode,
    >)
        requires
            old(fs).wf(),
            self.dir_ok(&old(fs)),
            src_inode.ok(&old(fs)),
            spec_tag_at(old(fs).view(), src_inode.block_id as int, src_inode.block_offset as int)
                != 1u8,
            spec_nlinks_at(
                old(fs).view(),
                src_inode.block_id as int,
                src_inode.block_offset as int,
            ) < u32::MAX,
            spec_name_ok(new_name@),
            spec_inodes_disjoint(
                old(fs).view(),
                self.block_id as int,
                self.block_offset as int,
                src_inode.block_id as int,
                src_inode.block_offset as int,
            ),
            count_free(old(fs).data_bitmap@) >= 2,
            spec_size_at(old(fs).view(), self.block_id as int, self.block_offset as int) + 32
                <= INODE_MAX_SIZE,
        ensures
            final(fs).wf(),
            r.is_none() <==> spec_entry_find(self.entries(&old(fs)), new_name@) >= 0,
            r.is_none() ==> spec_same_fs(&*final(fs), &old(fs)),
            r.is_some() ==> {
                let sbid = src_inode.block_id as int;
                let soff = src_inode.block_offset as int;
                let sid = old(fs).spec_inode_id(sbid, soff) as u32;
                let h = r.unwrap();
                &&& h.block_id == src_inode.block_id
                &&& h.block_offset == src_inode.block_offset
                &&& self.dir_ok(&*final(fs))
                &&& self.entries(&*final(fs)) == self.entries(&old(fs)).push((new_name@, sid))
                &&& src_inode.ok(&*final(fs))
                &&& spec_nlinks_at(final(fs).view(), sbid, soff) == spec_nlinks_at(
                    old(fs).view(),
                    sbid,
                    soff,
                ) + 1
                &&& spec_tag_at(final(fs).view(), sbid, soff) != 1u8
                &&& spec_size_at(final(fs).view(), sbid, soff) == spec_size_at(
                    old(fs).view(),
                    sbid,
                    soff,
                )
                &&& spec_content_at(final(fs).view(), sbid, soff) == spec_content_at(
                    old(fs).view(),
                    sbid,
                    soff,
                )
                &&& final(fs).inode_bitmap@ == old(fs).inode_bitmap@
                &&& final(fs).inode_count == old(fs).inode_count
            },
    {
        let ghost view0 = old(fs).view();
        let ghost bid = self.block_id as int;
        let ghost off = self.block_offset as int;
        let ghost sbid = src_inode.block_id as int;
        let ghost soff = src_inode.block_offset as int;
        let ghost es0 = self.entries(&old(fs));
        proof {
            lemma_entry_find_props(es0, new_name@);
        }
        let src_inode_id = fs.get_disk_inode_id(src_inode.block_id as u32, src_inode.block_offset);
        if self.find_inode_id(fs, new_name).is_some() {
            return None;
        }
        // raise the target's link count in place
        let mut srcd = src_inode.load_disk_inode(fs);
        srcd.linkup();
        let ghost view_a = fs.view();
        srcd.store(&mut fs.cache, src_inode.block_id, src_inode.block_offset);
        proof {
            assert(view_a == view0);
            // the two records occupy different slots: one is a directory,
            // the other is not
            assert(!(sbid == bid && soff == off));
            crate::block_cache::lemma_view_block_len(&old(fs).cache, sbid);
            crate::block_cache::lemma_view_block_len(&fs.cache, sbid);
            let ghost wind = srcd.indirect1 as int;
            lemma_other_record_preserved(
                view_a,
                fs.view(),
                sbid,
                soff,
                (|b: int| b == wind && wind != 0),
                bid,
                off,
            );
            assert(self.dir_ok(fs));
            assert(self.entries(fs) =~= es0);
            assert(src_inode.ok(fs));
        }
        let ghost view_b = fs.view();
        proof {
            // between the entry and the store only the link count changed
            assert(spec_size_at(view_b, sbid, soff) == spec_size_at(view0, sbid, soff));
            assert(spec_ind_at(view_b, sbid, soff) == spec_ind_at(view0, sbid, soff));
            assert forall|i: int|
                0 <= i < spec_data_blocks(spec_size_at(view_b, sbid, soff))
                    implies #[trigger] spec_block_at(view_b, sbid, soff, i) == spec_block_at(
                view0,
                sbid,
                soff,
                i,
            ) by {
                assert(spec_block_at(view_b, sbid, soff, i) == srcd.blocks@[i]);
            }
            assert forall|m: int|
                0 <= m < spec_size_at(view0, sbid, soff) implies spec_content_at(
                view_b,
                sbid,
                soff,
            )[m] == spec_content_at(view0, sbid, soff)[m] by {
                let bsz = BLOCK_SZ as int;
                assert(0 <= m / bsz < srcd.blocks@.len());
                assert(spec_block_at(view_b, sbid, soff, m / bsz) == srcd.blocks@[m / bsz]);
                assert(view_b[srcd.blocks@[m / bsz] as int]
                    == view_a[srcd.blocks@[m / bsz] as int]);
            }
            assert(spec_content_at(view_b, sbid, soff) =~= spec_content_at(view0, sbid, soff));
            assert(spec_nlinks_at(view_b, sbid, soff) == spec_nlinks_at(view0, sbid, soff) + 1);
        }
        self.append_dirent(fs, new_name, src_inode_id);
        proof {
            // the target's record and content survive the directory update
            crate::block_cache::lemma_view_block_len(&fs.cache, sbid);
            lemma_other_record_preserved(
                view_b,
                fs.view(),
                bid,
                off,
                (|b: int| !(view_b.len() <= 0) && (old(fs).data_area_start_block <= b
                    < view_b.len()) && !(old(fs).data_bitmap@[b - old(fs).data_area_start_block]
                    && b != spec_ind_at(view_b, bid, off) && !(exists|i: int|
                    0 <= i < spec_data_blocks(spec_size_at(view_b, bid, off))
                        && #[trigger] spec_block_at(view_b, bid, off, i) == b))),
                sbid,
                soff,
            );
            assert forall|i: int|
                0 <= i < spec_data_blocks(spec_size_at(fs.view(), sbid, soff))
                    implies old(fs).data_area_start_block <= #[trigger] spec_block_at(
                fs.view(),
                sbid,
                soff,
                i,
            ) && fs.data_bitmap@[spec_block_at(fs.view(), sbid, soff, i)
                - old(fs).data_area_start_block] by {
                assert(spec_block_at(fs.view(), sbid, soff, i) == spec_block_at(
                    view_b,
                    sbid,
                    soff,
                    i,
                ));
            }
            assert(src_inode.ok(fs));
            assert(spec_content_at(fs.view(), sbid, soff) == spec_content_at(view0, sbid, soff));
            assert(spec_nlinks_at(fs.view(), sbid, soff) == spec_nlinks_at(view0, sbid, soff) + 1);
            assert(self.entries(fs) == es0.push(
                (new_name@, old(fs).spec_inode_id(sbid, soff) as u32),
            ));
        }
        Some(Inode { block_id: src_inode.block_id, block_offset: src_inode.block_offset })
    }
}

impl Inode {
    /// Free every listed block. The list must name allocated data blocks,
    /// each at most once.
    fn dealloc_all(fs: &mut EasyFileSystem, freed: &Vec<u32>)
        requires
            old(fs).wf(),
            forall|i: int|
                0 <= i < freed@.len() ==> old(fs).data_area_start_block <= #[trigger] freed@[i]
                    && (freed@[i] as int) < old(fs).view().len() && old(fs).data_bitmap@[freed@[i]
                    - old(fs).data_area_start_block],
            forall|i: int, j: int| 0 <= i < j < freed@.len() ==> freed@[i] != freed@[j],
        ensures
            final(fs).wf(),
            final(fs).view() == old(fs).view(),
            final(fs).inode_bitmap@ == old(fs).inode_bitmap@,
            final(fs).inode_area_start_block == old(fs).inode_area_start_block,
            final(fs).data_area_start_block == old(fs).data_area_start_block,
            final(fs).inode_count == old(fs).inode_count,
            final(fs).data_bitmap@.len() == old(fs).data_bitmap@.len(),
            count_free(final(fs).data_bitmap@) == count_free(old(fs).data_bitmap@)
                + freed@.len(),
            forall|j: int|
                0 <= j < old(fs).data_bitmap@.len() && !old(fs).data_bitmap@[j]
                    ==> !final(fs).data_bitmap@[j],
            forall|j: int|
                0 <= j < old(fs).data_bitmap@.len() && old(fs).data_bitmap@[j] && (forall|i: int|
                    0 <= i < freed@.len() ==> #[trigger] freed@[i]
                        - old(fs).data_area_start_block != j) ==> final(fs).data_bitmap@[j],
            forall|i: int|
                0 <= i < freed@.len() ==> !final(fs).data_bitmap@[#[trigger] freed@[i]
                    - old(fs).data_area_start_block],
    {
        let n = freed.len();
        let mut i: usize = 0;
        while i < n
            invariant
                n == freed@.len(),
                i <= n,
                fs.wf(),
                fs.view() == old(fs).view(),
                fs.inode_bitmap@ == old(fs).inode_bitmap@,
                fs.inode_area_start_block == old(fs).inode_area_start_block,
                fs.data_area_start_block == old(fs).data_area_start_block,
                fs.inode_count == old(fs).inode_count,
                fs.data_bitmap@.len() == old(fs).data_bitmap@.len(),
                forall|k: int|
                    0 <= k < n ==> old(fs).data_area_start_block <= #[trigger] freed@[k]
                        && (freed@[k] as int) < old(fs).view().len()
                        && old(fs).data_bitmap@[freed@[k] - old(fs).data_area_start_block],
                forall|k1: int, k2: int| 0 <= k1 < k2 < n ==> freed@[k1] != freed@[k2],
                count_free(fs.data_bitmap@) == count_free(old(fs).data_bitmap@) + i,
                forall|j: int|
                    0 <= j < old(fs).data_bitmap@.len() && !old(fs).data_bitmap@[j]
                        ==> !fs.data_bitmap@[j],
                forall|j: int|
                    0 <= j < old(fs).data_bitmap@.len() && old(fs).data_bitmap@[j] && (forall|
                        k: int,
                    |
                        0 <= k < i ==> #[trigger] freed@[k] - old(fs).data_area_start_block != j)
                        ==> fs.data_bitmap@[j],
                forall|k: int|
                    0 <= k < i ==> !fs.data_bitmap@[#[trigger] freed@[k]
                        - old(fs).data_area_start_block],
            decreases n - i,
        {
            proof {
                assert(fs.data_bitmap@[freed@[i as int] - old(fs).data_area_start_block]) by {
                    assert forall|k: int|
                        0 <= k < i implies #[trigger] freed@[k] - old(fs).data_area_start_block
                        != freed@[i as int] - old(fs).data_area_start_block by {}
                }
            }
            fs.dealloc_data(freed[i]);
            i += 1;
        }
    }
}

impl Inode {
    /// Index of the first entry of this directory carrying `name`.
    fn find_entry_index(&self, fs: &mut EasyFileSystem, name: &[u8]) -> (r: Option<usize>)
        requires
            old(fs).wf(),
            self.dir_ok(&old(fs)),
        ensures
            final(fs).wf(),
            spec_same_fs(&*final(fs), &old(fs)),
            r.is_some() <==> spec_entry_find(self.entries(&old(fs)), name@) >= 0,
            r.is_some() ==> r == Some(
                spec_entry_find(self.entries(&old(fs)), name@) as usize,
            ),
    {
        let ghost es = self.entries(&old(fs));
        let d = self.load_disk_inode(fs);
        proof {
            lemma_content_at_matches(
                &d,
                old(fs).view(),
                self.block_id as int,
                self.block_offset as int,
            );
        }
        let file_count = (d.size as usize) / DIRENT_SZ;
        let mut buf: Vec<u8> = Vec::new();
        let mut z: usize = 0;
        while z < DIRENT_SZ
            invariant
                z <= DIRENT_SZ,
                buf@.len() == z,
            decreases DIRENT_SZ - z,
        {
            buf.push(0u8);
            z += 1;
        }
        let mut k: usize = 0;
        while k < file_count
            invariant
                fs.wf(),
                spec_same_fs(fs, &old(fs)),
                self.dir_ok(&old(fs)),
                d.wf(),
                spec_inode_matches(
                    &d,
                    old(fs).view(),
                    self.block_id as int,
                    self.block_offset as int,
                ),
                spec_inode_locs_ok(&d, old(fs).view().len() as int, self.block_id as int),
                spec_content(&d, old(fs).view()) == spec_content_at(
                    old(fs).view(),
                    self.block_id as int,
                    self.block_offset as int,
                ),
                es == self.entries(&old(fs)),
                file_count == es.len(),
                file_count == d.size as int / (DIRENT_SZ as int),
                k <= file_count,
                buf@.len() == DIRENT_SZ,
                forall|j: int| 0 <= j < k ==> (#[trigger] es[j]).0 != name@,
            decreases file_count - k,
        {
            let _n = d.read_at(DIRENT_SZ * k, &mut buf, &mut fs.cache);
            proof {
                assert(buf@ =~= spec_content_at(
                    old(fs).view(),
                    self.block_id as int,
                    self.block_offset as int,
                ).subrange(
                    k as int * (DIRENT_SZ as int),
                    k as int * (DIRENT_SZ as int) + 32,
                ));
            }
            let dirent = DirEntry::from_bytes(buf.as_slice());
            if bytes_eq(dirent.name().as_slice(), name) {
                proof {
                    lemma_entry_find_at(es, name@, k as int);
                }
                return Some(k);
            }
            k += 1;
        }
        proof {
            lemma_entry_find_at(es, name@, file_count as int);
        }
        None
    }
}

impl Inode {
    /// unlink name file: drop one link of the target; at zero links, return
    /// all of its storage to the allocator. Independently remove `name` from
    /// this directory by overwriting its entry with the tail entry and
    /// truncating by one record - order is not preserved. Like `link`, this
    /// does not flush; the change reaches the device at the next sync.
    #[verifier::rlimit(100)]
    pub fn unlink(&self, fs: &mut EasyFileSystem, src_inode: &Inode, name: &[u8]) -> (r: Option<
        isize,
    >)
        requires
            old(fs).wf(),
            self.dir_ok(&old(fs)),
            src_inode.ok(&old(fs)),
            spec_tag_at(old(fs).view(), src_inode.block_id as int, src_inode.block_offset as int)
                != 1u8,
            spec_nlinks_at(
                old(fs).view(),
                src_inode.block_id as int,
                src_inode.block_offset as int,
            ) >= 1,
            spec_inodes_disjoint(
                old(fs).view(),
                self.block_id as int,
                self.block_offset as int,
                src_inode.block_id as int,
                src_inode.block_offset as int,
            ),
            spec_entry_find(self.entries(&old(fs)), name@) >= 0,
            self.entries(&old(fs))[spec_entry_find(self.entries(&old(fs)), name@)].1 == old(
                fs,
            ).spec_inode_id(src_inode.block_id as int, src_inode.block_offset as int),
            forall|j: int|
                0 <= j < self.entries(&old(fs)).len() && j != spec_entry_find(
                    self.entries(&old(fs)),
                    name@,
                ) ==> (#[trigger] self.entries(&old(fs))[j]).0 != name@,
        ensures
            final(fs).wf(),
            r == Some(0isize),
            self.dir_ok(&*final(fs)),
            self.entries(&*final(fs)) == self.entries(&old(fs)).update(
                spec_entry_find(self.entries(&old(fs)), name@),
                self.entries(&old(fs)).last(),
            ).drop_last(),
            spec_nlinks_at(
                final(fs).view(),
                src_inode.block_id as int,
                src_inode.block_offset as int,
            ) == spec_nlinks_at(
                old(fs).view(),
                src_inode.block_id as int,
                src_inode.block_offset as int,
            ) - 1,
            final(fs).inode_count == old(fs).inode_count,
            (spec_nlinks_at(
                old(fs).view(),
                src_inode.block_id as int,
                src_inode.block_offset as int,
            ) == 1) ==> {
                &&& spec_size_at(
                    final(fs).view(),
                    src_inode.block_id as int,
                    src_inode.block_offset as int,
                ) == 0u32
                &&& final(fs).inode_bitmap@ == old(fs).inode_bitmap@.update(
                    old(fs).spec_inode_id(
                        src_inode.block_id as int,
                        src_inode.block_offset as int,
                    ),
                    false,
                )
            },
            (spec_nlinks_at(
                old(fs).view(),
                src_inode.block_id as int,
                src_inode.block_offset as int,
            ) != 1) ==> {
                &&& src_inode.ok(&*final(fs))
                &&& final(fs).inode_bitmap@ == old(fs).inode_bitmap@
                &&& spec_content_at(
                    final(fs).view(),
                    src_inode.block_id as int,
                    src_inode.block_offset as int,
                ) == spec_content_at(
                    old(fs).view(),
                    src_inode.block_id as int,
                    src_inode.block_offset as int,
                )
            },
    {
        let ghost view0 = old(fs).view();
        let ghost bid = self.block_id as int;
        let ghost off = self.block_offset as int;
        let ghost sbid = src_inode.block_id as int;
        let ghost soff = src_inode.block_offset as int;
        let ghost es0 = self.entries(&old(fs));
        let ghost k = spec_entry_find(es0, name@);
        proof {
            lemma_entry_find_props(es0, name@);
        }
        let src_inode_id = fs.get_disk_inode_id(src_inode.block_id as u32, src_inode.block_offset);
        let mut srcd = src_inode.load_disk_inode(fs);
        let linkcount = srcd.linkdown();
        let ghost view_a = fs.view();
        if linkcount == 0 {
            let freed = srcd.clear_size();
            srcd.store(&mut fs.cache, src_inode.block_id, src_inode.block_offset);
            proof {
                assert(!(sbid == bid && soff == off));
                crate::block_cache::lemma_view_block_len(&old(fs).cache, sbid);
                lemma_other_record_preserved(
                    view_a,
                    fs.view(),
                    sbid,
                    soff,
                    (|b: int| false),
                    bid,
                    off,
                );
                assert forall|i: int, j2: int|
                    0 <= i < j2 < freed@.len() implies freed@[i] != freed@[j2] by {}
            }
            Inode::dealloc_all(fs, &freed);
            fs.dealloc_inode(src_inode_id);
            proof {
                fs.lemma_inode_id_injective(bid, off, sbid, soff);
                // the directory's storage is untouched by the reclamation
                assert forall|i: int|
                    0 <= i < spec_data_blocks(spec_size_at(fs.view(), bid, off))
                        implies fs.data_bitmap@[#[trigger] spec_block_at(fs.view(), bid, off, i)
                        - fs.data_area_start_block] by {
                    assert(spec_block_at(fs.view(), bid, off, i) == spec_block_at(
                        view0,
                        bid,
                        off,
                        i,
                    ));
                    assert forall|f: int|
                        0 <= f < freed@.len() implies #[trigger] freed@[f]
                            - old(fs).data_area_start_block != spec_block_at(view0, bid, off, i)
                            - old(fs).data_area_start_block by {}
                }
                assert(spec_ind_at(fs.view(), bid, off) != 0
                    ==> fs.data_bitmap@[spec_ind_at(fs.view(), bid, off)
                    - fs.data_area_start_block]) by {
                    if spec_ind_at(view0, bid, off) != 0 {
                        assert forall|f: int|
                            0 <= f < freed@.len() implies #[trigger] freed@[f]
                                - old(fs).data_area_start_block != spec_ind_at(view0, bid, off)
                                - old(fs).data_area_start_block by {}
                    }
                }
                assert(self.dir_ok(fs));
                assert(self.entries(fs) =~= es0);
            }
        } else {
            srcd.store(&mut fs.cache, src_inode.block_id, src_inode.block_offset);
            proof {
                assert(!(sbid == bid && soff == off));
                crate::block_cache::lemma_view_block_len(&old(fs).cache, sbid);
                let ghost wind = srcd.indirect1 as int;
                lemma_other_record_preserved(
                    view_a,
                    fs.view(),
                    sbid,
                    soff,
                    (|b: int| b == wind && wind != 0),
                    bid,
                    off,
                );
                assert(self.dir_ok(fs));
                assert(self.entries(fs) =~= es0);
                // the target keeps its bytes: only its record was rewritten
                assert forall|m: int|
                    0 <= m < spec_size_at(view0, sbid, soff) implies spec_content_at(
                    fs.view(),
                    sbid,
                    soff,
                )[m] == spec_content_at(view0, sbid, soff)[m] by {
                    let bsz = BLOCK_SZ as int;
                    assert(0 <= m / bsz < srcd.blocks@.len());
                    assert(spec_block_at(fs.view(), sbid, soff, m / bsz) == srcd.blocks@[m / bsz]);
                    assert(fs.view()[srcd.blocks@[m / bsz] as int]
                        == view_a[srcd.blocks@[m / bsz] as int]);
                }
                assert(spec_content_at(fs.view(), sbid, soff) =~= spec_content_at(
                    view0,
                    sbid,
                    soff,
                ));
                assert(src_inode.ok(fs));
            }
        }
        let ghost fs_b = *fs;
        let ghost view_b = fs.view();
        proof {
            assert(self.entries(&fs_b) =~= es0);
        }
        let rr = self.remove_dirent(fs, name);
        proof {
            // the target's record survives the directory compaction
            crate::block_cache::lemma_view_block_len(&fs_b.cache, sbid);
            let startb = fs_b.data_area_start_block as int;
            lemma_other_record_preserved(
                view_b,
                fs.view(),
                bid,
                off,
                (|b: int| b >= startb && !(fs_b.data_bitmap@[b - startb] && b != spec_ind_at(
                    view_b,
                    bid,
                    off,
                ) && !(exists|i: int|
                    0 <= i < spec_data_blocks(spec_size_at(view_b, bid, off))
                        && #[trigger] spec_block_at(view_b, bid, off, i) == b))),
                sbid,
                soff,
            );
            if spec_nlinks_at(view0, sbid, soff) != 1 {
                assert forall|i: int|
                    0 <= i < spec_data_blocks(spec_size_at(fs.view(), sbid, soff))
                        implies fs.data_area_start_block <= #[trigger] spec_block_at(
                    fs.view(),
                    sbid,
                    soff,
                    i,
                ) && fs.data_bitmap@[spec_block_at(fs.view(), sbid, soff, i)
                    - fs.data_area_start_block] by {
                    assert(spec_block_at(fs.view(), sbid, soff, i) == spec_block_at(
                        view_b,
                        sbid,
                        soff,
                        i,
                    ));
                    let b = spec_block_at(view_b, sbid, soff, i) as int;
                    assert(spec_block_at(view_b, sbid, soff, i) == srcd.blocks@[i]);
                    assert(spec_block_at(view0, sbid, soff, i) == srcd.blocks@[i]);
                    assert forall|i2: int|
                        0 <= i2 < spec_data_blocks(spec_size_at(view_b, bid, off))
                            implies #[trigger] spec_block_at(view_b, bid, off, i2) != b by {
                        assert(spec_block_at(view_b, bid, off, i2) == spec_block_at(
                            view0,
                            bid,
                            off,
                            i2,
                        ));
                    }
                    assert(spec_ind_at(view_b, bid, off) == spec_ind_at(view0, bid, off));
                    assert(fs_b.data_area_start_block <= b < fs_b.view().len());
                    assert(fs_b.data_bitmap@[b - fs_b.data_area_start_block]);
                    assert(b != spec_ind_at(view_b, bid, off));
                    assert(!(exists|i2: int|
                        0 <= i2 < spec_data_blocks(spec_size_at(view_b, bid, off))
                            && #[trigger] spec_block_at(view_b, bid, off, i2) == b));
                    assert(fs.view()[b] == view_b[b]);
                    assert(fs.data_bitmap@[b - fs_b.data_area_start_block]);
                }
                assert(src_inode.ok(fs));
                assert(spec_content_at(fs.view(), sbid, soff) =~= spec_content_at(
                    view_b,
                    sbid,
                    soff,
                ));
            }
        }
                Some(0)
    }
}


impl Inode {
    /// Remove `name` from this directory: overwrite its entry with the
    /// current tail entry, write the all-zero sentinel at the old tail, and
    /// truncate the directory by one record width, returning the freed
    /// blocks to the allocator.
    #[verifier::rlimit(60)]
    fn remove_dirent(&self, fs: &mut EasyFileSystem, name: &[u8]) -> (r: u32)
        requires
            old(fs).wf(),
            self.dir_ok(&old(fs)),
            spec_entry_find(self.entries(&old(fs)), name@) >= 0,
        ensures
            final(fs).wf(),
            r == 0,
            self.dir_ok(&*final(fs)),
            self.entries(&*final(fs)) == self.entries(&old(fs)).update(
                spec_entry_find(self.entries(&old(fs)), name@),
                self.entries(&old(fs)).last(),
            ).drop_last(),
            final(fs).view().len() == old(fs).view().len(),
            final(fs).inode_bitmap@ == old(fs).inode_bitmap@,
            final(fs).inode_area_start_block == old(fs).inode_area_start_block,
            final(fs).data_area_start_block == old(fs).data_area_start_block,
            final(fs).inode_count == old(fs).inode_count,
            final(fs).data_bitmap@.len() == old(fs).data_bitmap@.len(),
            count_free(final(fs).data_bitmap@) == count_free(old(fs).data_bitmap@) + (
            crate::layout::spec_total_blocks(
                spec_size_at(old(fs).view(), self.block_id as int, self.block_offset as int),
            ) - crate::layout::spec_total_blocks(
                (spec_size_at(old(fs).view(), self.block_id as int, self.block_offset as int)
                    - 32) as u32,
            )),
            forall|j: int|
                0 <= j < old(fs).data_bitmap@.len() && !old(fs).data_bitmap@[j]
                    ==> !final(fs).data_bitmap@[j],
            // every record outside this directory's slot keeps its bytes
            forall|b: int|
                0 <= b < old(fs).data_area_start_block && b != self.block_id
                    ==> final(fs).view()[b] == old(fs).view()[b],
            forall|k2: int|
                0 <= k2 < BLOCK_SZ && !(self.block_offset <= k2 < self.block_offset + INODE_SZ)
                    ==> final(fs).view()[self.block_id as int][k2]
                    == old(fs).view()[self.block_id as int][k2],
            // every allocated data block not carrying this directory keeps
            // its bytes and stays allocated
            forall|b: int|
                old(fs).data_area_start_block <= b < old(fs).view().len() && old(
                    fs,
                ).data_bitmap@[b - old(fs).data_area_start_block] && b != spec_ind_at(
                    old(fs).view(),
                    self.block_id as int,
                    self.block_offset as int,
                ) && !(exists|i: int|
                    0 <= i < spec_data_blocks(
                        spec_size_at(old(fs).view(), self.block_id as int, self.block_offset as int),
                    ) && #[trigger] spec_block_at(
                        old(fs).view(),
                        self.block_id as int,
                        self.block_offset as int,
                        i,
                    ) == b) ==> (#[trigger] final(fs).view()[b]) == old(fs).view()[b]
                    && final(fs).data_bitmap@[b - old(fs).data_area_start_block],
    {
        let ghost view0 = old(fs).view();
        let ghost bid = self.block_id as int;
        let ghost off = self.block_offset as int;
        let ghost es0 = self.entries(&old(fs));
        let ghost k = spec_entry_find(es0, name@);
        proof {
            lemma_entry_find_props(es0, name@);
        }
        let ghost fs_b = *fs;
        let ghost view_b = fs.view();
        let mut d = self.load_disk_inode(fs);
        let ghost d0 = d;
        proof {
            lemma_content_at_matches(&d, view_b, bid, off);
        }
        let file_count = (d.size as usize) / DIRENT_SZ;
        let last = file_count - 1;
        let mut lastbuf: Vec<u8> = Vec::new();
        let mut z: usize = 0;
        while z < DIRENT_SZ
            invariant
                z <= DIRENT_SZ,
                lastbuf@.len() == z,
            decreases DIRENT_SZ - z,
        {
            lastbuf.push(0u8);
            z += 1;
        }
        let _rl = d.read_at(DIRENT_SZ * last, &mut lastbuf, &mut fs.cache);
        proof {
            assert(lastbuf@ =~= spec_content_at(view_b, bid, off).subrange(
                last as int * 32,
                last as int * 32 + 32,
            ));
        }
        let kk_opt = self.find_entry_index(fs, name);
        let kk = kk_opt.unwrap();
        proof {
            assert(self.entries(&fs_b) =~= es0);
            assert(kk == k);
        }
        let ghost view_c = fs.view();
        if kk < last {
            let _wr = d.write_at(DIRENT_SZ * kk, lastbuf.as_slice(), &mut fs.cache);
        }
        let ghost view_d = fs.view();
        let empty_bytes = DirEntry::empty().as_bytes();
        let _we = d.write_at(DIRENT_SZ * last, empty_bytes.as_slice(), &mut fs.cache);
        let ghost view_d2 = fs.view();
        let new_size = (d.size as usize - DIRENT_SZ) as u32;
        let freed2 = d.decrease_size(new_size);
        d.store(&mut fs.cache, self.block_id, self.block_offset);
        let ghost view_e = fs.view();
        proof {
            assert forall|i: int, j2: int|
                0 <= i < j2 < freed2@.len() implies freed2@[i] != freed2@[j2] by {}
            assert forall|i: int|
                0 <= i < freed2@.len() implies old(fs).data_area_start_block
                    <= #[trigger] freed2@[i] && (freed2@[i] as int) < old(fs).view().len()
                    && fs.data_bitmap@[freed2@[i] - old(fs).data_area_start_block] by {}
        }
        Inode::dealloc_all(fs, &freed2);
        proof {
            let view_f = fs.view();
            assert(view_f == view_e);
            let c_b = spec_content_at(view_b, bid, off);
            let li = last as int;
            let ki = k as int;
            // content of the shrunken directory: the tail entry sits where
            // the removed one was; everything else is as it stood
            lemma_content_at_matches(&d, view_e, bid, off);
            assert forall|m: int|
                0 <= m < new_size implies spec_content(&d, view_e)[m] == (if k < li && ki * 32
                    <= m < ki * 32 + 32 {
                    c_b[li * 32 + (m - ki * 32)]
                } else {
                    c_b[m]
                }) by {
                let bsz = BLOCK_SZ as int;
                assert(0 <= m / bsz < d.blocks@.len());
                let mb = d.blocks@[m / bsz];
                assert(view_e[mb as int] == view_d2[mb as int]) by {
                    assert(mb != d.indirect1 || d.indirect1 == 0);
                    assert(mb as int != bid);
                }
                assert(spec_content(&d0, view_d2)[m] == view_d2[mb as int][m % bsz]);
                assert(spec_content(&d0, view_d2)[m] == (if li * 32 <= m < li * 32 + 32 {
                    empty_bytes@[m - li * 32]
                } else {
                    spec_content(&d0, view_d)[m]
                }));
                assert(m < li * 32);
                if k < li {
                    assert(spec_content(&d0, view_d)[m] == (if ki * 32 <= m < ki * 32 + 32 {
                        lastbuf@[m - ki * 32]
                    } else {
                        spec_content(&d0, view_c)[m]
                    }));
                } else {
                    assert(view_d == view_c);
                }
                assert(spec_content(&d0, view_c)[m] == c_b[m]);
            }
            // the directory still points only at sound, allocated blocks
            assert forall|i: int|
                0 <= i < spec_data_blocks(spec_size_at(view_e, bid, off))
                    implies fs.data_area_start_block <= #[trigger] spec_block_at(
                view_e,
                bid,
                off,
                i,
            ) && fs.data_bitmap@[spec_block_at(view_e, bid, off, i)
                - fs.data_area_start_block] by {
                assert(spec_block_at(view_e, bid, off, i) == d.blocks@[i]);
                assert forall|f: int|
                    0 <= f < freed2@.len() implies #[trigger] freed2@[f]
                        - old(fs).data_area_start_block != d.blocks@[i]
                        - old(fs).data_area_start_block by {}
            }
            assert(spec_ind_at(view_e, bid, off) != 0 ==> fs.data_area_start_block <= spec_ind_at(
                view_e,
                bid,
                off,
            ) && fs.data_bitmap@[spec_ind_at(view_e, bid, off) - fs.data_area_start_block]) by {
                if spec_ind_at(view_e, bid, off) != 0 {
                    assert(spec_ind_at(view_e, bid, off) == d.indirect1);
                    assert forall|f: int|
                        0 <= f < freed2@.len() implies #[trigger] freed2@[f]
                            - old(fs).data_area_start_block != d.indirect1
                            - old(fs).data_area_start_block by {}
                }
            }
            // the resulting entry list is the old one with the tail entry
            // swapped over the removed slot and the tail cut off
            let es_f = spec_dir_entries(view_e, bid, off);
            let target = es0.update(ki, es0.last()).drop_last();
            assert(spec_size_at(view_e, bid, off) == new_size);
            assert(es_f.len() == li);
            assert forall|j: int| 0 <= j < li implies es_f[j] == target[j] by {
                if j == ki && k < li {
                    assert(spec_content_at(view_e, bid, off).subrange(j * 32, j * 32 + 32)
                        =~= c_b.subrange(li * 32, li * 32 + 32));
                    assert(es0[li] == (
                        spec_name_of(c_b.subrange(li * 32, li * 32 + 32)),
                        spec_inode_id_of(c_b.subrange(li * 32, li * 32 + 32)),
                    ));
                } else {
                    assert(spec_content_at(view_e, bid, off).subrange(j * 32, j * 32 + 32)
                        =~= c_b.subrange(j * 32, j * 32 + 32));
                    assert(es0[j] == (
                        spec_name_of(c_b.subrange(j * 32, j * 32 + 32)),
                        spec_inode_id_of(c_b.subrange(j * 32, j * 32 + 32)),
                    ));
                }
            }
            assert(es_f =~= target);
            // frames: the rest of the inode area, this record's other
            // bytes, and every unrelated allocated data block are untouched
            let startb = old(fs).data_area_start_block as int;
            assert forall|b: int|
                0 <= b < startb && b != bid implies view_e[b] == view_b[b] by {
                assert(!crate::layout::spec_is_data_block(&d0, b));
                assert(view_d[b] == view_b[b]);
                assert(view_d2[b] == view_d[b]);
                assert(d.indirect1 != 0 ==> d.indirect1 as int != b);
                assert(view_e[b] == view_d2[b]);
            }
            assert forall|k2: int|
                0 <= k2 < BLOCK_SZ && !(off <= k2 < off + INODE_SZ) implies view_e[bid][k2]
                == view_b[bid][k2] by {
                assert(!crate::layout::spec_is_data_block(&d0, bid));
                assert(view_d[bid] == view_b[bid]);
                assert(view_d2[bid] == view_d[bid]);
            }
            assert forall|b: int|
                startb <= b < view0.len() && old(fs).data_bitmap@[b - startb] && b != spec_ind_at(
                    view_b,
                    bid,
                    off,
                ) && !(exists|i2: int|
                    0 <= i2 < spec_data_blocks(spec_size_at(view_b, bid, off))
                        && #[trigger] spec_block_at(view_b, bid, off, i2) == b) implies view_e[b]
                == view_b[b] && fs.data_bitmap@[b - startb] by {
                assert forall|i2: int|
                    0 <= i2 < d0.blocks@.len() implies #[trigger] d0.blocks@[i2] as int != b by {
                    assert(spec_block_at(view_b, bid, off, i2) == d0.blocks@[i2]);
                }
                assert(!crate::layout::spec_is_data_block(&d0, b));
                assert(view_d[b] == view_b[b]);
                assert(view_d2[b] == view_d[b]);
                assert(d.indirect1 != 0 ==> d.indirect1 as int != b);
                assert(view_e[b] == view_d2[b]);
                assert forall|f: int|
                    0 <= f < freed2@.len() implies #[trigger] freed2@[f] - startb != b
                        - startb by {
                    assert(d0.indirect1 != 0 ==> d0.indirect1 as int != b);
                }
            }
        }
        0
    }
}

/// No entry lost on compaction: removing an entry by overwriting it with
/// the tail entry and truncating yields a directory whose entry multiset is
/// the original minus the removed entry, wherever the entry stood - the
/// tail included.
pub proof fn lemma_remove_entry_multiset(es: Seq<(Seq<u8>, u32)>, k: int)
    requires
        0 <= k < es.len(),
    ensures
        es.update(k, es.last()).drop_last().to_multiset() =~= es.to_multiset().remove(es[k]),
{
    broadcast use vstd::seq_lib::group_to_multiset_ensures;
    broadcast use vstd::multiset::group_multiset_axioms;

    let n = es.len() as int;
    let r = es.update(k, es.last()).drop_last();
    if k == n - 1 {
        assert(r =~= es.remove(k));
        assert(es.remove(k).to_multiset() =~= es.to_multiset().remove(es[k]));
    } else {
        let t = es.take(k);
        let mid = es.subrange(k + 1, n - 1);
        let l = seq![es.last()];
        let e = seq![es[k]];
        assert(r =~= t + l + mid);
        assert(es.remove(k) =~= t + (mid + l));
        vstd::seq_lib::lemma_multiset_commutative(t + l, mid);
        vstd::seq_lib::lemma_multiset_commutative(t, l);
        vstd::seq_lib::lemma_multiset_commutative(t, mid + l);
        vstd::seq_lib::lemma_multiset_commutative(mid, l);
        assert(r.to_multiset() =~= t.to_multiset().add(l.to_multiset()).add(mid.to_multiset()));
        assert(es.remove(k).to_multiset() =~= t.to_multiset().add(
            mid.to_multiset().add(l.to_multiset()),
        ));
        assert(r.to_multiset() =~= es.remove(k).to_multiset());
        assert(es.remove(k).to_multiset() =~= es.to_multiset().remove(es[k]));
    }
}

impl Inode {
    /// Read data from current inode: fill `buf` from byte `offset` on; the
    /// number of bytes read comes back.
    pub fn read_at(&self, fs: &mut EasyFileSystem, offset: usize, buf: &mut Vec<u8>) -> (r: usize)
        requires
            old(fs).wf(),
            self.ok(&old(fs)),
        ensures
            final(fs).wf(),
            spec_same_fs(&*final(fs), &old(fs)),
            r == (if offset >= spec_size_at(
                old(fs).view(),
                self.block_id as int,
                self.block_offset as int,
            ) {
                0int
            } else if spec_size_at(old(fs).view(), self.block_id as int, self.block_offset as int)
                - offset < old(buf)@.len() {
                spec_size_at(old(fs).view(), self.block_id as int, self.block_offset as int)
                    - offset
            } else {
                old(buf)@.len() as int
            }),
            final(buf)@.len() == old(buf)@.len(),
            forall|k: int|
                0 <= k < r ==> final(buf)@[k] == spec_content_at(
                    old(fs).view(),
                    self.block_id as int,
                    self.block_offset as int,
                )[offset + k],
            forall|k: int| r <= k < old(buf)@.len() ==> final(buf)@[k] == old(buf)@[k],
    {
        let d = self.load_disk_inode(fs);
        proof {
            lemma_content_at_matches(
                &d,
                old(fs).view(),
                self.block_id as int,
                self.block_offset as int,
            );
        }
        d.read_at(offset, buf, &mut fs.cache)
    }

    /// Write data to current inode: grow it first when the write runs past
    /// the end, copy `buf` in at `offset`, and flush every dirty block; the
    /// number of bytes written comes back.
    pub fn write_at(&self, fs: &mut EasyFileSystem, offset: usize, buf: &[u8]) -> (r: usize)
        requires
            old(fs).wf(),
            self.ok(&old(fs)),
            offset + buf@.len() <= INODE_MAX_SIZE,
            count_free(old(fs).data_bitmap@) >= crate::layout::spec_total_blocks(
                (offset + buf@.len()) as u32,
            ),
        ensures
            final(fs).wf(),
            r == buf@.len(),
            self.ok(&*final(fs)),
            spec_size_at(final(fs).view(), self.block_id as int, self.block_offset as int) == (
            if offset + buf@.len() > spec_size_at(
                old(fs).view(),
                self.block_id as int,
                self.block_offset as int,
            ) {
                (offset + buf@.len()) as u32
            } else {
                spec_size_at(old(fs).view(), self.block_id as int, self.block_offset as int)
            }),
            spec_tag_at(final(fs).view(), self.block_id as int, self.block_offset as int)
                == spec_tag_at(old(fs).view(), self.block_id as int, self.block_offset as int)
                || spec_tag_at(old(fs).view(), self.block_id as int, self.block_offset as int)
                != 1u8,
            spec_nlinks_at(final(fs).view(), self.block_id as int, self.block_offset as int)
                == spec_nlinks_at(old(fs).view(), self.block_id as int, self.block_offset as int),
            forall|m: int|
                offset <= m < offset + buf@.len() ==> spec_content_at(
                    final(fs).view(),
                    self.block_id as int,
                    self.block_offset as int,
                )[m] == buf@[m - offset],
            forall|m: int|
                0 <= m < offset && m < spec_size_at(
                    old(fs).view(),
                    self.block_id as int,
                    self.block_offset as int,
                ) ==> spec_content_at(
                    final(fs).view(),
                    self.block_id as int,
                    self.block_offset as int,
                )[m] == spec_content_at(
                    old(fs).view(),
                    self.block_id as int,
                    self.block_offset as int,
                )[m],
            count_free(final(fs).data_bitmap@) == count_free(old(fs).data_bitmap@) - (
            crate::layout::spec_total_blocks(
                (if offset + buf@.len() > spec_size_at(
                    old(fs).view(),
                    self.block_id as int,
                    self.block_offset as int,
                ) {
                    (offset + buf@.len()) as u32
                } else {
                    spec_size_at(old(fs).view(), self.block_id as int, self.block_offset as int)
                }),
            ) - crate::layout::spec_total_blocks(
                spec_size_at(old(fs).view(), self.block_id as int, self.block_offset as int),
            )),
            final(fs).inode_bitmap@ == old(fs).inode_bitmap@,
            final(fs).inode_count == old(fs).inode_count,
            final(fs).data_area_start_block == old(fs).data_area_start_block,
            final(fs).cache.device.view() == final(fs).view(),
            forall|b: int|
                0 <= b < old(fs).data_area_start_block && b != self.block_id
                    ==> final(fs).view()[b] == old(fs).view()[b],
            forall|k: int|
                0 <= k < BLOCK_SZ && !(self.block_offset <= k < self.block_offset + INODE_SZ)
                    ==> final(fs).view()[self.block_id as int][k]
                    == old(fs).view()[self.block_id as int][k],
    {
        let ghost view0 = old(fs).view();
        let ghost bid = self.block_id as int;
        let ghost off = self.block_offset as int;
        let mut d = self.load_disk_inode(fs);
        let new_end = offset + buf.len();
        let new_size: u32 = if new_end > d.size as usize {
            new_end as u32
        } else {
            d.size
        };
        let needed = d.blocks_num_needed(new_size);
        let mut v: Vec<u32> = Vec::new();
        let mut i: u32 = 0;
        while i < needed
            invariant
                i <= needed,
                fs.wf(),
                fs.view() == view0,
                view0 == old(fs).view(),
                fs.inode_bitmap@ == old(fs).inode_bitmap@,
                fs.inode_area_start_block == old(fs).inode_area_start_block,
                fs.data_area_start_block == old(fs).data_area_start_block,
                fs.inode_count == old(fs).inode_count,
                fs.data_bitmap@.len() == old(fs).data_bitmap@.len(),
                old(fs).data_bitmap@.len() == view0.len() - old(fs).data_area_start_block,
                needed <= count_free(old(fs).data_bitmap@),
                count_free(fs.data_bitmap@) == count_free(old(fs).data_bitmap@) - i,
                v@.len() == i,
                forall|j: int|
                    0 <= j < old(fs).data_bitmap@.len() && old(fs).data_bitmap@[j]
                        ==> fs.data_bitmap@[j],
                forall|j: int|
                    0 <= j < i ==> old(fs).data_area_start_block <= #[trigger] v@[j]
                        < old(fs).view().len(),
                forall|j: int|
                    0 <= j < i ==> !old(fs).data_bitmap@[#[trigger] v@[j]
                        - old(fs).data_area_start_block],
                forall|j: int|
                    0 <= j < i ==> fs.data_bitmap@[#[trigger] v@[j]
                        - old(fs).data_area_start_block],
                forall|j1: int, j2: int| 0 <= j1 < j2 < i ==> v@[j1] != v@[j2],
            decreases needed - i,
        {
            let ghost dpre = fs.data_bitmap@;
            let ghost vpre = v@;
            let nb = fs.alloc_data();
            v.push(nb);
            proof {
                assert forall|j: int|
                    0 <= j < old(fs).data_bitmap@.len() && old(fs).data_bitmap@[j]
                        implies fs.data_bitmap@[j] by {
                    assert(dpre[j]);
                }
                assert forall|j: int|
                    0 <= j < i + 1 implies old(fs).data_area_start_block <= #[trigger] v@[j]
                    < old(fs).view().len() by {
                    if j < i {
                        assert(v@[j] == vpre[j]);
                    }
                }
                assert forall|j: int|
                    0 <= j < i + 1 implies !old(fs).data_bitmap@[#[trigger] v@[j]
                        - old(fs).data_area_start_block] by {
                    if j < i {
                        assert(v@[j] == vpre[j]);
                    }
                }
                assert forall|j: int|
                    0 <= j < i + 1 implies fs.data_bitmap@[#[trigger] v@[j]
                        - old(fs).data_area_start_block] by {
                    if j < i {
                        assert(v@[j] == vpre[j]);
                        assert(dpre[v@[j] - old(fs).data_area_start_block]);
                    }
                }
                assert forall|j1: int, j2: int|
                    0 <= j1 < j2 < i + 1 implies v@[j1] != v@[j2] by {
                    if j2 == i as int {
                        assert(dpre[v@[j1] - old(fs).data_area_start_block]);
                        assert(!dpre[v@[j2] - old(fs).data_area_start_block]);
                    }
                }
            }
            i += 1;
        }
        proof {
            assert forall|j: int| 0 <= j < v@.len() implies #[trigger] v@[j] != 0u32 by {
                assert(v@[j] >= old(fs).data_area_start_block >= 1);
            }
        }
        d.increase_size(new_size, v);
        proof {
            assert forall|j: int|
                0 <= j < d.blocks@.len() implies old(fs).data_area_start_block
                <= #[trigger] d.blocks@[j] && fs.data_bitmap@[d.blocks@[j]
                - old(fs).data_area_start_block] by {}
            assert forall|j1: int, j2: int|
                0 <= j1 < j2 < d.blocks@.len() implies #[trigger] d.blocks@[j1]
                != #[trigger] d.blocks@[j2] by {}
            assert(spec_inode_locs_ok(&d, view0.len() as int, bid));
        }
        let wr = d.write_at(offset, buf, &mut fs.cache);
        let ghost view1 = fs.cache.view();
        d.store(&mut fs.cache, self.block_id, self.block_offset);
        proof {
            let view2 = fs.cache.view();
            assert forall|m: int|
                0 <= m < new_size implies spec_content(&d, view2)[m] == spec_content(
                &d,
                view1,
            )[m] by {
                let bsz = BLOCK_SZ as int;
                assert(0 <= m / bsz < d.blocks@.len());
                assert(view2[d.blocks@[m / bsz] as int] == view1[d.blocks@[m / bsz] as int]);
            }
            lemma_content_at_matches(&d, view2, bid, off);
            assert forall|m: int|
                0 <= m < offset && m < spec_size_at(view0, bid, off) implies spec_content(
                &d,
                view2,
            )[m] == spec_content_at(view0, bid, off)[m] by {
                let bsz = BLOCK_SZ as int;
                assert(0 <= m / bsz < spec_data_blocks(spec_size_at(view0, bid, off)));
                assert(spec_content(&d, view1)[m] == spec_content(&d, view0)[m]);
                assert(spec_content(&d, view0)[m] == spec_content_at(view0, bid, off)[m]);
            }
            let startb = old(fs).data_area_start_block as int;
            assert forall|b: int|
                0 <= b < startb && b != bid implies view2[b] == view0[b] by {
                assert(!crate::layout::spec_is_data_block(&d, b));
                assert(view1[b] == view0[b]);
                assert(d.indirect1 != 0 ==> d.indirect1 as int != b);
                assert(view2[b] == view1[b]);
            }
            assert forall|k: int|
                0 <= k < BLOCK_SZ && !(off <= k < off + INODE_SZ) implies view2[bid][k]
                == view0[bid][k] by {
                assert(!crate::layout::spec_is_data_block(&d, bid));
                assert(view1[bid] == view0[bid]);
            }
        }
        fs.cache.sync_all();
        wr
    }

    /// Clear the data in current inode: shrink it to nothing and return
    /// every block it occupied to the allocator, then flush.
    pub fn clear(&self, fs: &mut EasyFileSystem)
        requires
            old(fs).wf(),
            self.ok(&old(fs)),
        ensures
            final(fs).wf(),
            self.ok(&*final(fs)),
            spec_size_at(final(fs).view(), self.block_id as int, self.block_offset as int)
                == 0u32,
            spec_nlinks_at(final(fs).view(), self.block_id as int, self.block_offset as int)
                == spec_nlinks_at(old(fs).view(), self.block_id as int, self.block_offset as int),
            count_free(final(fs).data_bitmap@) == count_free(old(fs).data_bitmap@)
                + crate::layout::spec_total_blocks(
                spec_size_at(old(fs).view(), self.block_id as int, self.block_offset as int),
            ),
            final(fs).inode_bitmap@ == old(fs).inode_bitmap@,
            final(fs).inode_count == old(fs).inode_count,
            final(fs).cache.device.view() == final(fs).view(),
            forall|b: int|
                0 <= b < old(fs).view().len() && b != self.block_id ==> final(fs).view()[b]
                    == old(fs).view()[b],
            forall|k: int|
                0 <= k < BLOCK_SZ && !(self.block_offset <= k < self.block_offset + INODE_SZ)
                    ==> final(fs).view()[self.block_id as int][k]
                    == old(fs).view()[self.block_id as int][k],
    {
        let mut d = self.load_disk_inode(fs);
        let ghost old_size = d.size;
        let freed = d.clear_size();
        proof {
            d.lemma_size_block_invariant();
            assert forall|i: int, j2: int|
                0 <= i < j2 < freed@.len() implies freed@[i] != freed@[j2] by {}
        }
        d.store(&mut fs.cache, self.block_id, self.block_offset);
        Inode::dealloc_all(fs, &freed);
        fs.cache.sync_all();
    }
}

/// Whether every entry of the directory at (`bid`, `off`) names a live file
/// inode at its mapped record slot.
pub open spec fn spec_dir_targets_ok(fs: &EasyFileSystem, bid: int, off: int) -> bool {
    forall|k: int|
        0 <= k < spec_dir_entries(fs.view(), bid, off).len() ==> {
            let id = (#[trigger] spec_dir_entries(fs.view(), bid, off)[k]).1;
            &&& spec_inode_ok(fs, fs.spec_inode_pos(id).0, fs.spec_inode_pos(id).1)
            &&& spec_tag_at(fs.view(), fs.spec_inode_pos(id).0, fs.spec_inode_pos(id).1) != 1u8
        }
}

/// Number of entries of `es` that point at inode `id`.
pub open spec fn count_entries_for(es: Seq<(Seq<u8>, u32)>, id: u32) -> int
    decreases es.len(),
{
    if es.len() == 0 {
        0
    } else {
        (if es[0].1 == id {
            1int
        } else {
            0int
        }) + count_entries_for(es.drop_first(), id)
    }
}

/// Counting entries for an inode distributes over concatenation.
pub proof fn lemma_count_entries_concat(a: Seq<(Seq<u8>, u32)>, b: Seq<(Seq<u8>, u32)>, id: u32)
    ensures
        count_entries_for(a + b, id) == count_entries_for(a, id) + count_entries_for(b, id),
    decreases a.len(),
{
    if a.len() == 0 {
        assert(a + b =~= b);
    } else {
        assert((a + b)[0] == a[0]);
        assert((a + b).drop_first() =~= a.drop_first() + b);
        lemma_count_entries_concat(a.drop_first(), b, id);
    }
}

/// Link-count conservation, growth step: appending an entry for inode `id`
/// - as `create` and `link` do - raises the number of entries pointing at
/// `id` by exactly one, so a link count equal to that number stays equal
/// when it is raised alongside.
pub proof fn lemma_link_count_push(es: Seq<(Seq<u8>, u32)>, name: Seq<u8>, id: u32)
    ensures
        count_entries_for(es.push((name, id)), id) == count_entries_for(es, id) + 1,
        forall|other: u32|
            other != id ==> count_entries_for(es.push((name, id)), other) == count_entries_for(
                es,
                other,
            ),
    decreases es.len(),
{
    assert forall|other: u32|
        count_entries_for(es.push((name, id)), other) == count_entries_for(es, other) + (if other
        == id {
        1int
    } else {
        0int
    }) by {
        assert(es.push((name, id)) =~= es + seq![(name, id)]);
        lemma_count_entries_concat(es, seq![(name, id)], other);
        assert(count_entries_for(seq![(name, id)], other) == (if other == id {
            1int
        } else {
            0int
        })) by {
            assert(seq![(name, id)].drop_first() =~= Seq::<(Seq<u8>, u32)>::empty());
            assert(count_entries_for(Seq::<(Seq<u8>, u32)>::empty(), other) == 0);
        }
    }
}

/// Link-count conservation, removal step: taking the entry at `k` out by
/// the swap-and-truncate compaction - as `unlink` does - lowers the number
/// of entries pointing at its inode by exactly one and leaves every other
/// inode's count alone.
pub proof fn lemma_link_count_swap_remove(es: Seq<(Seq<u8>, u32)>, k: int, id: u32)
    requires
        0 <= k < es.len(),
    ensures
        count_entries_for(es.update(k, es.last()).drop_last(), id) == count_entries_for(es, id)
            - (if es[k].1 == id {
            1int
        } else {
            0int
        }),
{
    let n = es.len() as int;
    let r = es.update(k, es.last()).drop_last();
    if k == n - 1 {
        assert(r =~= es.drop_last());
        assert(es =~= es.drop_last() + seq![es[k]]);
        lemma_count_entries_concat(es.drop_last(), seq![es[k]], id);
        assert(count_entries_for(seq![es[k]], id) == (if es[k].1 == id {
            1int
        } else {
            0int
        })) by {
            assert(seq![es[k]].drop_first() =~= Seq::<(Seq<u8>, u32)>::empty());
            assert(count_entries_for(Seq::<(Seq<u8>, u32)>::empty(), id) == 0);
        }
    } else {
        let t = es.take(k);
        let mid = es.subrange(k + 1, n - 1);
        assert(r =~= t + (seq![es.last()] + mid));
        assert(es =~= t + (seq![es[k]] + (mid + seq![es.last()])));
        lemma_count_entries_concat(t, seq![es.last()] + mid, id);
        lemma_count_entries_concat(seq![es.last()], mid, id);
        lemma_count_entries_concat(t, seq![es[k]] + (mid + seq![es.last()]), id);
        lemma_count_entries_concat(seq![es[k]], mid + seq![es.last()], id);
        lemma_count_entries_concat(mid, seq![es.last()], id);
        assert(count_entries_for(seq![es[k]], id) == (if es[k].1 == id {
            1int
        } else {
            0int
        })) by {
            assert(seq![es[k]].drop_first() =~= Seq::<(Seq<u8>, u32)>::empty());
            assert(count_entries_for(Seq::<(Seq<u8>, u32)>::empty(), id) == 0);
        }
        assert(count_entries_for(seq![es.last()], id) == (if es.last().1 == id {
            1int
        } else {
            0int
        })) by {
            assert(seq![es.last()].drop_first() =~= Seq::<(Seq<u8>, u32)>::empty());
            assert(count_entries_for(Seq::<(Seq<u8>, u32)>::empty(), id) == 0);
        }
    }
}

} // verus!
