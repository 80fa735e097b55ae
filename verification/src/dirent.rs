//! Directory entries: the fixed-width on-disk record pairing a name with an
//! inode number. A directory's content is a flat array of these records, so
//! a consistent encoding and decoding of one record is what keeps a
//! directory readable.
use vstd::prelude::*;

use vstd::bytes::spec_u32_to_le_bytes;
use vstd::bytes::spec_u32_from_le_bytes;
use vstd::bytes::lemma_auto_spec_u32_to_from_le_bytes;
use vstd::bytes::u32_to_le_bytes;
use vstd::bytes::u32_from_le_bytes;

verus! {

/// Longest permitted name, in bytes.
pub const NAME_LENGTH_LIMIT: usize = 27;

/// Width of the name field: the name and at least one terminating zero.
pub const NAME_FIELD_SZ: usize = 28;

/// Size in bytes of one directory entry on disk.
pub const DIRENT_SZ: usize = 32;

/// A name the encoding can carry exactly: short enough for the field and
/// free of the zero byte that terminates it.
pub open spec fn spec_name_ok(name: Seq<u8>) -> bool {
    &&& name.len() <= NAME_LENGTH_LIMIT
    &&& forall|i: int| 0 <= i < name.len() ==> name[i] != 0u8
}

/// The wire format of one entry: the name zero-padded to the field width,
/// then the inode number in little-endian order.
pub open spec fn spec_dirent_bytes(name: Seq<u8>, inode_id: u32) -> Seq<u8> {
    Seq::new(NAME_FIELD_SZ as nat, |i: int| if i < name.len() {
        name[i]
    } else {
        0u8
    }) + spec_u32_to_le_bytes(inode_id)
}

/// Index of the first zero byte of the name field at or after `i`, or the
/// field width when there is none.
pub open spec fn spec_name_end(b: Seq<u8>, i: int) -> int
    decreases NAME_FIELD_SZ - i,
{
    if i < 0 {
        0
    } else if i >= NAME_FIELD_SZ {
        NAME_FIELD_SZ as int
    } else if b[i] == 0u8 {
        i
    } else {
        spec_name_end(b, i + 1)
    }
}

/// The name an encoded entry carries: the bytes before the first zero.
pub open spec fn spec_name_of(b: Seq<u8>) -> Seq<u8> {
    b.take(spec_name_end(b, 0))
}

/// The inode number an encoded entry carries.
pub open spec fn spec_inode_id_of(b: Seq<u8>) -> u32 {
    spec_u32_from_le_bytes(b.subrange(NAME_FIELD_SZ as int, DIRENT_SZ as int))
}

/// If the bytes before `end` are nonzero and the byte at `end` (when inside
/// the field) is zero, the first zero at or after `i <= end` sits at `end`.
pub proof fn lemma_name_end_first(b: Seq<u8>, end: int, i: int)
    requires
        0 <= i <= end <= NAME_FIELD_SZ,
        forall|j: int| i <= j < end ==> b[j] != 0u8,
        end < NAME_FIELD_SZ ==> b[end] == 0u8,
    ensures
        spec_name_end(b, i) == end,
    decreases end - i,
{
    if i < end {
        lemma_name_end_first(b, end, i + 1);
    }
}

/// Round-trip of the directory-entry encoding: any permitted name and any
/// inode number come back exactly from their encoded record.
pub proof fn lemma_dirent_round_trip(name: Seq<u8>, inode_id: u32)
    requires
        spec_name_ok(name),
    ensures
        spec_name_of(spec_dirent_bytes(name, inode_id)) == name,
        spec_inode_id_of(spec_dirent_bytes(name, inode_id)) == inode_id,
{
    let b = spec_dirent_bytes(name, inode_id);
    lemma_auto_spec_u32_to_from_le_bytes();
    assert(b.len() == DIRENT_SZ);
    lemma_name_end_first(b, name.len() as int, 0);
    assert(b.take(name.len() as int) =~= name);
    assert(b.subrange(NAME_FIELD_SZ as int, DIRENT_SZ as int) =~= spec_u32_to_le_bytes(inode_id));
}

/// A directory entry: a name and the number of the inode it links to.
pub struct DirEntry {
    pub name: Vec<u8>,
    pub inode_id: u32,
}

impl DirEntry {
    /// A name this entry's encoding carries exactly.
    pub open spec fn wf(&self) -> bool {
        spec_name_ok(self.name@)
    }

    /// An empty entry: the all-zero record used as the truncation sentinel.
    pub fn empty() -> (r: DirEntry)
        ensures
            r.name@.len() == 0,
            r.inode_id == 0,
            r.wf(),
    {
        DirEntry { name: Vec::new(), inode_id: 0 }
    }

    /// An entry binding `name` to inode `inode_id`.
    pub fn new(name: &[u8], inode_id: u32) -> (r: DirEntry)
        requires
            spec_name_ok(name@),
        ensures
            r.name@ == name@,
            r.inode_id == inode_id,
            r.wf(),
    {
        let mut v: Vec<u8> = Vec::new();
        let n = name.len();
        let mut i: usize = 0;
        while i < n
            invariant
                n == name@.len(),
                i <= n,
                v@ =~= name@.take(i as int),
            decreases n - i,
        {
            v.push(name[i]);
            proof {
                assert(v@ =~= name@.take(i as int + 1));
            }
            i += 1;
        }
        proof {
            assert(name@.take(n as int) =~= name@);
        }
        DirEntry { name: v, inode_id }
    }

    /// The entry's name.
    pub fn name(&self) -> (r: &Vec<u8>)
        ensures
            r@ == self.name@,
    {
        &self.name
    }

    /// The entry's inode number.
    pub fn inode_id(&self) -> (r: u32)
        ensures
            r == self.inode_id,
    {
        self.inode_id
    }

    /// as_bytes: the entry's on-disk record.
    pub fn as_bytes(&self) -> (r: Vec<u8>)
        requires
            self.wf(),
        ensures
            r@ == spec_dirent_bytes(self.name@, self.inode_id),
            r@.len() == DIRENT_SZ,
    {
        let mut v: Vec<u8> = Vec::new();
        let n = self.name.len();
        let mut i: usize = 0;
        while i < n
            invariant
                n == self.name@.len(),
                i <= n,
                v@ =~= self.name@.take(i as int),
            decreases n - i,
        {
            v.push(self.name[i]);
            proof {
                assert(v@ =~= self.name@.take(i as int + 1));
            }
            i += 1;
        }
        while v.len() < NAME_FIELD_SZ
            invariant
                self.name@.len() <= v@.len() <= NAME_FIELD_SZ,
                forall|j: int| 0 <= j < self.name@.len() ==> v@[j] == self.name@[j],
                forall|j: int| self.name@.len() <= j < v@.len() ==> v@[j] == 0u8,
            decreases NAME_FIELD_SZ - v@.len(),
        {
            v.push(0u8);
        }
        let mut tail = u32_to_le_bytes(self.inode_id);
        v.append(&mut tail);
        proof {
            assert(v@ =~= spec_dirent_bytes(self.name@, self.inode_id));
        }
        v
    }

    /// from_bytes: decode an on-disk record.
    pub fn from_bytes(b: &[u8]) -> (r: DirEntry)
        requires
            b@.len() == DIRENT_SZ,
        ensures
            r.name@ == spec_name_of(b@),
            r.inode_id == spec_inode_id_of(b@),
    {
        let mut name: Vec<u8> = Vec::new();
        let mut i: usize = 0;
        while i < NAME_FIELD_SZ && b[i] != 0
            invariant
                b@.len() == DIRENT_SZ,
                i <= NAME_FIELD_SZ,
                name@ =~= b@.take(i as int),
                forall|j: int| 0 <= j < i ==> b@[j] != 0u8,
            decreases NAME_FIELD_SZ - i,
        {
            name.push(b[i]);
            proof {
                assert(name@ =~= b@.take(i as int + 1));
            }
            i += 1;
        }
        proof {
            lemma_name_end_first(b@, i as int, 0);
        }
        let id = u32_from_le_bytes(&b[NAME_FIELD_SZ..DIRENT_SZ]);
        proof {
            assert(b@.subrange(NAME_FIELD_SZ as int, DIRENT_SZ as int) == b@.subrange(
                NAME_FIELD_SZ as int,
                DIRENT_SZ as int,
            ));
        }
        DirEntry { name, inode_id: id }
    }
}

} // verus!
