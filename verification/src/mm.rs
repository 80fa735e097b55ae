//! Model of the virtual-memory objects the task layer decides over: virtual
//! addresses, map permissions, and an address space as a set of mapped page
//! ranges. Page tables and frame allocation are the kernel's concern; the
//! logic here only reads and updates which pages are mapped.
use vstd::prelude::*;

verus! {

/// Size in bytes of one page of virtual memory.
pub const PAGE_SIZE: usize = 4096;

/// A virtual address.
#[derive(Clone, Copy, PartialEq, Eq, Structural, Debug)]
pub struct VirtAddr(pub usize);

/// Page number of the page containing `addr`.
pub open spec fn spec_floor(addr: usize) -> int {
    addr as int / PAGE_SIZE as int
}

/// Page number just past the last page touched by addresses below `addr`.
pub open spec fn spec_ceil(addr: usize) -> int {
    (addr + PAGE_SIZE - 1) as int / PAGE_SIZE as int
}

impl VirtAddr {
    /// Round this address down to a virtual page number.
    pub fn floor(&self) -> (r: usize)
        ensures
            r == spec_floor(self.0),
    {
        self.0 / PAGE_SIZE
    }

    /// Round this address up to a virtual page number.
    pub fn ceil(&self) -> (r: usize)
        requires
            self.0 + PAGE_SIZE - 1 <= usize::MAX,
        ensures
            r == spec_ceil(self.0),
    {
        if self.0 % PAGE_SIZE == 0 {
            self.0 / PAGE_SIZE
        } else {
            self.0 / PAGE_SIZE + 1
        }
    }

    /// Whether this address sits on a page boundary.
    pub fn aligned(&self) -> (r: bool)
        ensures
            r == (self.0 % PAGE_SIZE == 0),
    {
        self.0 % PAGE_SIZE == 0
    }
}

/// Permission bits of a mapped area: readable, writable, executable,
/// user-accessible.
#[derive(Clone, Copy, PartialEq, Eq, Structural, Debug)]
pub struct MapPermission {
    pub bits: u8,
}

/// Readable.
pub const MAP_PERM_R: u8 = 2;

/// Writable.
pub const MAP_PERM_W: u8 = 4;

/// Executable.
pub const MAP_PERM_X: u8 = 8;

/// Accessible from user mode.
pub const MAP_PERM_U: u8 = 16;

impl MapPermission {
    /// The permission with exactly the given bits.
    pub fn from_bits(bits: u8) -> (r: MapPermission)
        ensures
            r.bits == bits,
    {
        MapPermission { bits }
    }

    /// The union of two permissions.
    pub fn union(self, other: MapPermission) -> (r: MapPermission)
        ensures
            r.bits == self.bits | other.bits,
    {
        MapPermission { bits: self.bits | other.bits }
    }
}

/// One contiguous range of mapped virtual pages, `start_vpn` inclusive to
/// `end_vpn` exclusive.
#[derive(Clone, Copy, PartialEq, Eq, Structural, Debug)]
pub struct MapArea {
    pub start_vpn: usize,
    pub end_vpn: usize,
    pub perm: MapPermission,
}

/// Whether some area in `s` starts at virtual page `vpn`.
pub open spec fn has_area_starting(s: Seq<MapArea>, vpn: int) -> bool {
    exists|i: int| 0 <= i < s.len() && (#[trigger] s[i]).start_vpn == vpn
}

/// An address space: its page-table token and the areas mapped in it.
pub struct MemorySet {
    pub token: usize,
    pub areas: Vec<MapArea>,
}

impl MemorySet {
    /// Whether virtual page `vpn` lies inside some mapped area.
    pub open spec fn spec_mapped(&self, vpn: int) -> bool {
        exists|i: int|
            0 <= i < self.areas@.len() && (#[trigger] self.areas@[i]).start_vpn <= vpn
                < self.areas@[i].end_vpn
    }

    /// An empty address space under the given page-table token.
    pub fn new_bare(token: usize) -> (r: MemorySet)
        ensures
            r.token == token,
            r.areas@.len() == 0,
    {
        MemorySet { token, areas: Vec::new() }
    }

    /// The page-table token of this address space.
    pub fn token(&self) -> (r: usize)
        ensures
            r == self.token,
    {
        self.token
    }

    /// Look a virtual page up; the permission of the first area holding it,
    /// or `None` when the page is unmapped.
    pub fn translate(&self, vpn: usize) -> (r: Option<MapPermission>)
        ensures
            r.is_some() <==> self.spec_mapped(vpn as int),
    {
        let n = self.areas.len();
        let mut i: usize = 0;
        while i < n
            invariant
                n == self.areas@.len(),
                i <= n,
                forall|j: int|
                    0 <= j < i ==> !((#[trigger] self.areas@[j]).start_vpn <= vpn
                        < self.areas@[j].end_vpn),
            decreases n - i,
        {
            let a = self.areas[i];
            if a.start_vpn <= vpn && vpn < a.end_vpn {
                return Some(a.perm);
            }
            i += 1;
        }
        None
    }

    /// Map the pages covering `start_va` up to `end_va` as one new area with
    /// the given permission.
    pub fn insert_framed_area(
        &mut self,
        start_va: VirtAddr,
        end_va: VirtAddr,
        perm: MapPermission,
    )
        requires
            end_va.0 + PAGE_SIZE - 1 <= usize::MAX,
        ensures
            final(self).token == old(self).token,
            final(self).areas@ == old(self).areas@.push(
                MapArea {
                    start_vpn: spec_floor(start_va.0) as usize,
                    end_vpn: spec_ceil(end_va.0) as usize,
                    perm,
                },
            ),
    {
        let start_vpn = start_va.floor();
        let end_vpn = end_va.ceil();
        self.areas.push(MapArea { start_vpn, end_vpn, perm });
    }

    /// Retarget the end of the area starting at `start`'s page so that the
    /// area covers exactly the pages below `new_end`; `false` when no area
    /// starts there.
    pub fn shrink_to(&mut self, start: VirtAddr, new_end: VirtAddr) -> (r: bool)
        requires
            new_end.0 + PAGE_SIZE - 1 <= usize::MAX,
        ensures
            final(self).token == old(self).token,
            r == has_area_starting(old(self).areas@, spec_floor(start.0)),
            r ==> exists|i: int|
                {
                    &&& 0 <= i < old(self).areas@.len()
                    &&& (#[trigger] old(self).areas@[i]).start_vpn == spec_floor(start.0)
                    &&& final(self).areas@ == old(self).areas@.update(
                        i,
                        MapArea {
                            start_vpn: old(self).areas@[i].start_vpn,
                            end_vpn: spec_ceil(new_end.0) as usize,
                            perm: old(self).areas@[i].perm,
                        },
                    )
                },
            !r ==> final(self).areas@ == old(self).areas@,
    {
        let target = start.floor();
        let new_end_vpn = new_end.ceil();
        let n = self.areas.len();
        let mut i: usize = 0;
        while i < n
            invariant
                n == self.areas@.len(),
                i <= n,
                self.areas@ == old(self).areas@,
                self.token == old(self).token,
                target == spec_floor(start.0),
                new_end_vpn == spec_ceil(new_end.0),
                forall|j: int|
                    0 <= j < i ==> (#[trigger] old(self).areas@[j]).start_vpn != target,
            decreases n - i,
        {
            if self.areas[i].start_vpn == target {
                let a = self.areas[i];
                self.areas.set(
                    i,
                    MapArea { start_vpn: a.start_vpn, end_vpn: new_end_vpn, perm: a.perm },
                );
                proof {
                    assert((old(self).areas@[i as int]).start_vpn == spec_floor(start.0));
                    assert(self.areas@ == old(self).areas@.update(
                        i as int,
                        MapArea {
                            start_vpn: old(self).areas@[i as int].start_vpn,
                            end_vpn: spec_ceil(new_end.0) as usize,
                            perm: old(self).areas@[i as int].perm,
                        },
                    ));
                }
                return true;
            }
            i += 1;
        }
        false
    }

    /// Extend the area starting at `start`'s page so that it covers exactly
    /// the pages below `new_end`; `false` when no area starts there. The
    /// resulting area layout is the same as `shrink_to`'s; the two differ
    /// only in whether the kernel unmaps or maps frames, which is not
    /// modeled here.
    pub fn append_to(&mut self, start: VirtAddr, new_end: VirtAddr) -> (r: bool)
        requires
            new_end.0 + PAGE_SIZE - 1 <= usize::MAX,
        ensures
            final(self).token == old(self).token,
            r == has_area_starting(old(self).areas@, spec_floor(start.0)),
            r ==> exists|i: int|
                {
                    &&& 0 <= i < old(self).areas@.len()
                    &&& (#[trigger] old(self).areas@[i]).start_vpn == spec_floor(start.0)
                    &&& final(self).areas@ == old(self).areas@.update(
                        i,
                        MapArea {
                            start_vpn: old(self).areas@[i].start_vpn,
                            end_vpn: spec_ceil(new_end.0) as usize,
                            perm: old(self).areas@[i].perm,
                        },
                    )
                },
            !r ==> final(self).areas@ == old(self).areas@,
    {
        let target = start.floor();
        let new_end_vpn = new_end.ceil();
        let n = self.areas.len();
        let mut i: usize = 0;
        while i < n
            invariant
                n == self.areas@.len(),
                i <= n,
                self.areas@ == old(self).areas@,
                self.token == old(self).token,
                target == spec_floor(start.0),
                new_end_vpn == spec_ceil(new_end.0),
                forall|j: int|
                    0 <= j < i ==> (#[trigger] old(self).areas@[j]).start_vpn != target,
            decreases n - i,
        {
            if self.areas[i].start_vpn == target {
                let a = self.areas[i];
                self.areas.set(
                    i,
                    MapArea { start_vpn: a.start_vpn, end_vpn: new_end_vpn, perm: a.perm },
                );
                proof {
                    assert((old(self).areas@[i as int]).start_vpn == spec_floor(start.0));
                    assert(self.areas@ == old(self).areas@.update(
                        i as int,
                        MapArea {
                            start_vpn: old(self).areas@[i as int].start_vpn,
                            end_vpn: spec_ceil(new_end.0) as usize,
                            perm: old(self).areas@[i as int].perm,
                        },
                    ));
                }
                return true;
            }
            i += 1;
        }
        false
    }
}

} // verus!
