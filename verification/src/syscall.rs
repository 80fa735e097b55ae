//! File and filesystem-related syscalls, and the process-management
//! syscalls, as decisions over explicit state: the kernel hands in the
//! filesystem, the process's descriptor table or the task control block,
//! and user memory already translated to plain byte slices.
use vstd::prelude::*;

use crate::dirent::spec_name_ok;
use crate::efs::EasyFileSystem;
use crate::efs::count_free;
use crate::layout::INODE_MAX_SIZE;
use crate::layout::spec_size_at;
use crate::layout::spec_tag_at;
use crate::layout::spec_nlinks_at;
use crate::task::TaskControlBlock;
use crate::task::TaskStatus;
use crate::vfs::Inode;
use crate::vfs::spec_dir_ok;
use crate::vfs::spec_inode_ok;
use crate::vfs::spec_entry_find;
use crate::vfs::spec_dir_entries;
use crate::vfs::spec_inodes_disjoint;

verus! {

/// Time split into whole seconds and microseconds.
#[derive(Debug, Clone, Copy, PartialEq, Eq, Structural)]
pub struct TimeVal {
    pub sec: usize,
    pub usec: usize,
}

/// Open for writing.
pub const OPEN_FLAG_WRONLY: u32 = 1;

/// Open for reading and writing.
pub const OPEN_FLAG_RDWR: u32 = 2;

/// Create the file when absent; truncate it when present.
pub const OPEN_FLAG_CREATE: u32 = 512;

/// Truncate the file.
pub const OPEN_FLAG_TRUNC: u32 = 1024;

/// An open regular file: its access mode, read/write cursor, and the inode
/// it stands on.
pub struct OSInode {
    pub readable: bool,
    pub writable: bool,
    pub offset: usize,
    pub inode: Inode,
}

/// The per-process state the file syscalls decide over: the descriptor
/// table.
pub struct ProcessState {
    pub fd_table: Vec<Option<OSInode>>,
}

impl ProcessState {
    /// A process with an empty descriptor table.
    pub fn new() -> (r: ProcessState)
        ensures
            r.fd_table@.len() == 0,
    {
        ProcessState { fd_table: Vec::new() }
    }

    /// Whether `fd` names an open file.
    pub open spec fn spec_fd_live(&self, fd: int) -> bool {
        0 <= fd < self.fd_table@.len() && self.fd_table@[fd].is_some()
    }
}

/// sys_close: drop the descriptor; -1 when it is not open.
pub fn sys_close(proc: &mut ProcessState, fd: usize) -> (r: isize)
    ensures
        r == 0 || r == -1,
        (r == 0) == old(proc).spec_fd_live(fd as int),
        r == 0 ==> final(proc).fd_table@ == old(proc).fd_table@.update(
            fd as int,
            Option::<OSInode>::None,
        ),
        r == -1 ==> final(proc).fd_table@ == old(proc).fd_table@,
{
    if fd >= proc.fd_table.len() {
        return -1;
    }
    if proc.fd_table[fd].is_none() {
        return -1;
    }
    let entry = proc.fd_table.remove(fd);
    proc.fd_table.insert(fd, None);
    proof {
        assert(final(proc).fd_table@ =~= old(proc).fd_table@.update(
            fd as int,
            Option::<OSInode>::None,
        ));
    }
    0
}

/// sys_write: write `buf` at the descriptor's cursor and advance it; -1
/// when the descriptor is not open for writing.
pub fn sys_write(
    fs: &mut EasyFileSystem,
    proc: &mut ProcessState,
    fd: usize,
    buf: &[u8],
) -> (r: isize)
    requires
        old(fs).wf(),
        old(proc).spec_fd_live(fd as int) ==> {
            let f = old(proc).fd_table@[fd as int].unwrap();
            &&& f.inode.ok(&old(fs))
            &&& f.offset + buf@.len() <= INODE_MAX_SIZE
            &&& count_free(old(fs).data_bitmap@) >= crate::layout::spec_total_blocks(
                (f.offset + buf@.len()) as u32,
            )
        },
        buf@.len() <= 0x7fffffff,
    ensures
        final(fs).wf(),
        (r == -1) == !(old(proc).spec_fd_live(fd as int)
            && old(proc).fd_table@[fd as int].unwrap().writable),
        r != -1 ==> {
            let f = old(proc).fd_table@[fd as int].unwrap();
            &&& r == buf@.len()
            &&& final(proc).fd_table@.len() == old(proc).fd_table@.len()
            &&& final(proc).fd_table@[fd as int].is_some()
            &&& final(proc).fd_table@[fd as int].unwrap().offset == f.offset + buf@.len()
            &&& final(proc).fd_table@[fd as int].unwrap().inode == f.inode
            &&& forall|m: int|
                f.offset <= m < f.offset + buf@.len() ==> crate::vfs::spec_content_at(
                    final(fs).view(),
                    f.inode.block_id as int,
                    f.inode.block_offset as int,
                )[m] == buf@[m - f.offset]
        },
        r == -1 ==> final(proc).fd_table@ == old(proc).fd_table@ && crate::vfs::spec_same_fs(
            &*final(fs),
            &old(fs),
        ),
{
    if fd >= proc.fd_table.len() {
        return -1;
    }
    if proc.fd_table[fd].is_none() {
        return -1;
    }
    let entry = proc.fd_table.remove(fd);
    let f = entry.unwrap();
    if !f.writable {
        proc.fd_table.insert(fd, Some(f));
        proof {
            assert(final(proc).fd_table@ =~= old(proc).fd_table@);
        }
        return -1;
    }
    let n = f.inode.write_at(fs, f.offset, buf);
    let new_off = f.offset + n;
    let inode = f.inode;
    let readable = f.readable;
    let writable = f.writable;
    proc.fd_table.insert(fd, Some(OSInode { readable, writable, offset: new_off, inode }));
    n as isize
}

/// sys_read: read into a buffer of `len` bytes from the descriptor's
/// cursor, advancing it; the bytes read come back beside the count; -1 when
/// the descriptor is not open for reading.
pub fn sys_read(
    fs: &mut EasyFileSystem,
    proc: &mut ProcessState,
    fd: usize,
    buf: &mut Vec<u8>,
) -> (r: isize)
    requires
        old(fs).wf(),
        old(proc).spec_fd_live(fd as int)
            ==> old(proc).fd_table@[fd as int].unwrap().inode.ok(&old(fs)),
        old(buf)@.len() <= 0x7fffffff,
    ensures
        final(fs).wf(),
        crate::vfs::spec_same_fs(&*final(fs), &old(fs)),
        (r == -1) == !(old(proc).spec_fd_live(fd as int)
            && old(proc).fd_table@[fd as int].unwrap().readable),
        r != -1 ==> {
            let f = old(proc).fd_table@[fd as int].unwrap();
            &&& 0 <= r <= old(buf)@.len()
            &&& final(proc).fd_table@.len() == old(proc).fd_table@.len()
            &&& final(proc).fd_table@[fd as int].is_some()
            &&& final(proc).fd_table@[fd as int].unwrap().offset == f.offset + r
            &&& final(proc).fd_table@[fd as int].unwrap().inode == f.inode
            &&& forall|m: int|
                0 <= m < r ==> final(buf)@[m] == crate::vfs::spec_content_at(
                    old(fs).view(),
                    f.inode.block_id as int,
                    f.inode.block_offset as int,
                )[f.offset + m]
        },
        r == -1 ==> final(proc).fd_table@ == old(proc).fd_table@,
{
    if fd >= proc.fd_table.len() {
        return -1;
    }
    if proc.fd_table[fd].is_none() {
        return -1;
    }
    let entry = proc.fd_table.remove(fd);
    let f = entry.unwrap();
    if !f.readable {
        proc.fd_table.insert(fd, Some(f));
        proof {
            assert(final(proc).fd_table@ =~= old(proc).fd_table@);
        }
        return -1;
    }
    let n = f.inode.read_at(fs, f.offset, buf);
    let new_off = f.offset + n;
    let inode = f.inode;
    let readable = f.readable;
    let writable = f.writable;
    proc.fd_table.insert(fd, Some(OSInode { readable, writable, offset: new_off, inode }));
    n as isize
}

/// sys_yield: the running task steps aside and is ready to run again.
pub fn sys_yield(task: &mut TaskControlBlock) -> (r: isize)
    ensures
        r == 0,
        final(task).task_status == TaskStatus::Ready,
        final(task).memory_set == old(task).memory_set,
        final(task).program_brk == old(task).program_brk,
        final(task).heap_bottom == old(task).heap_bottom,
{
    task.task_status = TaskStatus::Ready;
    0
}

/// sys_mmap: map fresh pages into the current task's address space.
pub fn sys_mmap(task: &mut TaskControlBlock, start: usize, len: usize, port: usize) -> (r: isize)
    requires
        start + len <= usize::MAX - crate::mm::PAGE_SIZE + 1,
    ensures
        r == 0 || r == -1,
        (r == 0) == crate::task::spec_mmap_ok(&old(task).memory_set, start, len, port),
{
    task.syscall_mmap(start, len, port)
}

/// sys_munmap: unmap a page range of the current task's address space.
pub fn sys_munmap(task: &mut TaskControlBlock, start: usize, len: usize) -> (r: isize)
    requires
        start + len <= usize::MAX - crate::mm::PAGE_SIZE + 1,
    ensures
        r == 0 || r == -1,
        (r == 0) == crate::task::spec_munmap_ok(&old(task).memory_set, start, len),
{
    task.syscall_munmap(start, len)
}

/// sys_sbrk: move the program break; the old break comes back, or -1.
pub fn sys_sbrk(task: &mut TaskControlBlock, size: i32) -> (r: isize)
    requires
        old(task).program_brk <= isize::MAX,
        old(task).heap_bottom <= isize::MAX,
        old(task).program_brk + size <= isize::MAX,
    ensures
        r == -1 || r == old(task).program_brk,
        (r == -1) == !(old(task).program_brk + size >= old(task).heap_bottom
            && crate::mm::has_area_starting(
            old(task).memory_set.areas@,
            crate::mm::spec_floor(old(task).heap_bottom as usize),
        )),
{
    if let Some(old_brk) = task.change_program_brk(size) {
        old_brk as isize
    } else {
        -1
    }
}

/// Index of the first free slot of the descriptor table, or its length.
pub open spec fn spec_first_free_fd(s: Seq<Option<OSInode>>) -> int
    decreases s.len(),
{
    if s.len() == 0 {
        0
    } else if s[0].is_none() {
        0
    } else {
        1 + spec_first_free_fd(s.drop_first())
    }
}

/// If the slots below `i` are taken and slot `i` (when present) is free,
/// the first free slot is `i`.
pub proof fn lemma_first_free_fd_at(s: Seq<Option<OSInode>>, i: int)
    requires
        0 <= i <= s.len(),
        forall|j: int| 0 <= j < i ==> (#[trigger] s[j]).is_some(),
        i < s.len() ==> s[i].is_none(),
    ensures
        spec_first_free_fd(s) == i,
    decreases i,
{
    if i > 0 {
        assert forall|j: int| 0 <= j < i - 1 implies (#[trigger] s.drop_first()[j]).is_some() by {
            assert(s.drop_first()[j] == s[j + 1]);
        }
        assert(i - 1 < s.drop_first().len() ==> s.drop_first()[i - 1] == s[i]);
        lemma_first_free_fd_at(s.drop_first(), i - 1);
    }
}

/// Claim the first free descriptor slot, growing the table when none is
/// free.
fn alloc_fd(proc: &mut ProcessState) -> (r: usize)
    ensures
        r == spec_first_free_fd(old(proc).fd_table@),
        r <= old(proc).fd_table@.len(),
        r < old(proc).fd_table@.len() ==> final(proc).fd_table@ == old(proc).fd_table@,
        r == old(proc).fd_table@.len() ==> final(proc).fd_table@ == old(proc).fd_table@.push(
            Option::<OSInode>::None,
        ),
        final(proc).fd_table@[r as int].is_none(),
{
    let n = proc.fd_table.len();
    let mut i: usize = 0;
    while i < n
        invariant
            n == proc.fd_table@.len(),
            i <= n,
            proc == old(proc),
            forall|j: int| 0 <= j < i ==> (#[trigger] proc.fd_table@[j]).is_some(),
        decreases n - i,
    {
        if proc.fd_table[i].is_none() {
            proof {
                lemma_first_free_fd_at(old(proc).fd_table@, i as int);
            }
            return i;
        }
        i += 1;
    }
    proof {
        lemma_first_free_fd_at(old(proc).fd_table@, n as int);
    }
    proc.fd_table.push(None);
    n
}

/// sys_open: open `path` under the root directory with the given flags; the
/// fresh descriptor comes back, or -1 when the file is absent and creation
/// was not asked for.
pub fn sys_open(
    fs: &mut EasyFileSystem,
    proc: &mut ProcessState,
    path: &[u8],
    flags: u32,
) -> (r: isize)
    requires
        old(fs).wf(),
        spec_dir_ok(
            &old(fs),
            old(fs).spec_inode_pos(0).0,
            old(fs).spec_inode_pos(0).1,
        ),
        spec_name_ok(path@),
        old(proc).fd_table@.len() <= 0x10000,
        flags & !(OPEN_FLAG_WRONLY | OPEN_FLAG_RDWR | OPEN_FLAG_CREATE | OPEN_FLAG_TRUNC) == 0,
        count_free(old(fs).inode_bitmap@) >= 1,
        count_free(old(fs).data_bitmap@) >= 2,
        spec_size_at(old(fs).view(), old(fs).spec_inode_pos(0).0, old(fs).spec_inode_pos(0).1)
            + 32 <= INODE_MAX_SIZE,
        crate::vfs::spec_dir_targets_ok(
            &old(fs),
            old(fs).spec_inode_pos(0).0,
            old(fs).spec_inode_pos(0).1,
        ),
    ensures
        final(fs).wf(),
        ({
            let root = crate::vfs::spec_dir_entries(
                old(fs).view(),
                old(fs).spec_inode_pos(0).0,
                old(fs).spec_inode_pos(0).1,
            );
            let found = spec_entry_find(root, path@) >= 0;
            &&& (r == -1) == (!found && flags & OPEN_FLAG_CREATE == 0)
            &&& r == -1 ==> final(proc).fd_table@ == old(proc).fd_table@
            &&& r != -1 ==> {
                let fd = spec_first_free_fd(old(proc).fd_table@);
                let id = if found {
                    root[spec_entry_find(root, path@)].1
                } else {
                    crate::efs::first_free(old(fs).inode_bitmap@) as u32
                };
                &&& r == fd
                &&& final(proc).spec_fd_live(fd)
                &&& final(proc).fd_table@[fd].unwrap().offset == 0
                &&& final(proc).fd_table@[fd].unwrap().readable == (flags & OPEN_FLAG_WRONLY == 0)
                &&& final(proc).fd_table@[fd].unwrap().writable == (flags & OPEN_FLAG_WRONLY != 0
                    || flags & OPEN_FLAG_RDWR != 0)
                &&& final(proc).fd_table@[fd].unwrap().inode.block_id == old(fs).spec_inode_pos(
                    id,
                ).0
                &&& final(proc).fd_table@[fd].unwrap().inode.block_offset == old(
                    fs,
                ).spec_inode_pos(id).1
                &&& final(proc).fd_table@[fd].unwrap().inode.ok(&*final(fs))
                &&& (found && (flags & OPEN_FLAG_CREATE != 0 || flags & OPEN_FLAG_TRUNC != 0))
                    ==> spec_size_at(
                    final(fs).view(),
                    old(fs).spec_inode_pos(id).0,
                    old(fs).spec_inode_pos(id).1,
                ) == 0u32
                &&& !found ==> crate::vfs::spec_dir_entries(
                    final(fs).view(),
                    old(fs).spec_inode_pos(0).0,
                    old(fs).spec_inode_pos(0).1,
                ) == root.push((path@, id))
            }
        }),
{
    let root = fs.root_inode();
    let readable = flags & OPEN_FLAG_WRONLY == 0;
    let writable = flags & OPEN_FLAG_WRONLY != 0 || flags & OPEN_FLAG_RDWR != 0;
    let found = root.find(fs, path);
    proof {
        crate::vfs::lemma_entry_find_props(root.entries(&old(fs)), path@);
        let kf = spec_entry_find(root.entries(&old(fs)), path@);
        if kf >= 0 {
            let id = root.entries(&old(fs))[kf].1;
            assert(spec_dir_entries(
                old(fs).view(),
                old(fs).spec_inode_pos(0).0,
                old(fs).spec_inode_pos(0).1,
            )[kf] == root.entries(&old(fs))[kf]);
            assert(spec_inode_ok(
                &old(fs),
                old(fs).spec_inode_pos(id).0,
                old(fs).spec_inode_pos(id).1,
            ));
            assert(spec_inode_ok(
                fs,
                old(fs).spec_inode_pos(id).0,
                old(fs).spec_inode_pos(id).1,
            ));
        }
    }
    let inode_opt: Option<Inode>;
    if flags & OPEN_FLAG_CREATE != 0 {
        match found {
            Some(inode) => {
                inode.clear(fs);
                inode_opt = Some(inode);
            },
            None => {
                inode_opt = root.create(fs, path);
            },
        }
    } else {
        match found {
            Some(inode) => {
                if flags & OPEN_FLAG_TRUNC != 0 {
                    inode.clear(fs);
                }
                inode_opt = Some(inode);
            },
            None => {
                inode_opt = None;
            },
        }
    }
    match inode_opt {
        Some(inode) => {
            let fd = alloc_fd(proc);
            let ghost tpre = proc.fd_table@;
            let entry = OSInode { readable, writable, offset: 0, inode };
            let _got = proc.fd_table.remove(fd);
            proc.fd_table.insert(fd, Some(entry));
            proof {
                assert(proc.fd_table@ =~= tpre.update(fd as int, Some(entry)));
                assert(proc.fd_table@[fd as int] == Some(entry));
            }
            fd as isize
        },
        None => -1,
    }
}

/// sys_linkat: give the file named `old_path` the additional name
/// `new_path` in the root directory; -1 when the two names are equal, the
/// old one is absent, or the new one is taken.
pub fn sys_linkat(fs: &mut EasyFileSystem, old_path: &[u8], new_path: &[u8]) -> (r: isize)
    requires
        old(fs).wf(),
        spec_dir_ok(&old(fs), old(fs).spec_inode_pos(0).0, old(fs).spec_inode_pos(0).1),
        spec_name_ok(old_path@),
        spec_name_ok(new_path@),
        count_free(old(fs).data_bitmap@) >= 2,
        spec_size_at(old(fs).view(), old(fs).spec_inode_pos(0).0, old(fs).spec_inode_pos(0).1)
            + 32 <= INODE_MAX_SIZE,
        crate::vfs::spec_dir_targets_ok(
            &old(fs),
            old(fs).spec_inode_pos(0).0,
            old(fs).spec_inode_pos(0).1,
        ),
        ({
            let root = spec_dir_entries(
                old(fs).view(),
                old(fs).spec_inode_pos(0).0,
                old(fs).spec_inode_pos(0).1,
            );
            let kf = spec_entry_find(root, old_path@);
            kf >= 0 ==> {
                let id = root[kf].1;
                &&& spec_nlinks_at(
                    old(fs).view(),
                    old(fs).spec_inode_pos(id).0,
                    old(fs).spec_inode_pos(id).1,
                ) < u32::MAX
                &&& spec_inodes_disjoint(
                    old(fs).view(),
                    old(fs).spec_inode_pos(0).0,
                    old(fs).spec_inode_pos(0).1,
                    old(fs).spec_inode_pos(id).0,
                    old(fs).spec_inode_pos(id).1,
                )
            }
        }),
    ensures
        final(fs).wf(),
        ({
            let root = spec_dir_entries(
                old(fs).view(),
                old(fs).spec_inode_pos(0).0,
                old(fs).spec_inode_pos(0).1,
            );
            let kf = spec_entry_find(root, old_path@);
            &&& (r == 0) == (old_path@ != new_path@ && kf >= 0 && spec_entry_find(
                root,
                new_path@,
            ) == -1)
            &&& r == 0 || r == -1
            &&& r == 0 ==> {
                let id = root[kf].1;
                &&& spec_dir_entries(
                    final(fs).view(),
                    old(fs).spec_inode_pos(0).0,
                    old(fs).spec_inode_pos(0).1,
                ) == root.push((new_path@, id))
                &&& spec_nlinks_at(
                    final(fs).view(),
                    old(fs).spec_inode_pos(id).0,
                    old(fs).spec_inode_pos(id).1,
                ) == spec_nlinks_at(
                    old(fs).view(),
                    old(fs).spec_inode_pos(id).0,
                    old(fs).spec_inode_pos(id).1,
                ) + 1
                &&& crate::vfs::spec_content_at(
                    final(fs).view(),
                    old(fs).spec_inode_pos(id).0,
                    old(fs).spec_inode_pos(id).1,
                ) == crate::vfs::spec_content_at(
                    old(fs).view(),
                    old(fs).spec_inode_pos(id).0,
                    old(fs).spec_inode_pos(id).1,
                )
            }
            &&& r == -1 ==> crate::vfs::spec_same_fs(&*final(fs), &old(fs))
        }),
{
    if crate::vfs::bytes_eq(old_path, new_path) {
        return -1;
    }
    let root = fs.root_inode();
    let found = root.find(fs, old_path);
    proof {
        crate::vfs::lemma_entry_find_props(root.entries(&old(fs)), old_path@);
        crate::vfs::lemma_entry_find_props(root.entries(&old(fs)), new_path@);
        let kf = spec_entry_find(root.entries(&old(fs)), old_path@);
        if kf >= 0 {
            let id = root.entries(&old(fs))[kf].1;
            assert(spec_dir_entries(
                old(fs).view(),
                old(fs).spec_inode_pos(0).0,
                old(fs).spec_inode_pos(0).1,
            )[kf] == root.entries(&old(fs))[kf]);
            assert(spec_inode_ok(
                &old(fs),
                old(fs).spec_inode_pos(id).0,
                old(fs).spec_inode_pos(id).1,
            ));
            assert(spec_tag_at(
                old(fs).view(),
                old(fs).spec_inode_pos(id).0,
                old(fs).spec_inode_pos(id).1,
            ) != 1u8);
            old(fs).lemma_inode_pos_id_inverse(id);
        }
    }
    match found {
        Some(target) => {
            let ghost fs_mid = *fs;
            match root.link(fs, &target, new_path) {
                Some(h) => {
                    proof {
                        let rootes = spec_dir_entries(
                            old(fs).view(),
                            old(fs).spec_inode_pos(0).0,
                            old(fs).spec_inode_pos(0).1,
                        );
                        let kf = spec_entry_find(rootes, old_path@);
                        let id = rootes[kf].1;
                        assert(root.entries(&fs_mid) =~= rootes);
                        assert(fs_mid.spec_inode_id(
                            target.block_id as int,
                            target.block_offset as int,
                        ) == id);
                        assert(spec_dir_entries(
                            fs.view(),
                            old(fs).spec_inode_pos(0).0,
                            old(fs).spec_inode_pos(0).1,
                        ) == rootes.push((new_path@, id)));
                    }
                    0
                },
                None => -1,
            }
        },
        None => -1,
    }
}

/// sys_unlinkat: remove the name `path` from the root directory, dropping
/// one link of the file it names and reclaiming the file at zero links; -1
/// when the name is absent.
pub fn sys_unlinkat(fs: &mut EasyFileSystem, path: &[u8]) -> (r: isize)
    requires
        old(fs).wf(),
        spec_dir_ok(&old(fs), old(fs).spec_inode_pos(0).0, old(fs).spec_inode_pos(0).1),
        spec_name_ok(path@),
        crate::vfs::spec_dir_targets_ok(
            &old(fs),
            old(fs).spec_inode_pos(0).0,
            old(fs).spec_inode_pos(0).1,
        ),
        ({
            let root = spec_dir_entries(
                old(fs).view(),
                old(fs).spec_inode_pos(0).0,
                old(fs).spec_inode_pos(0).1,
            );
            let kf = spec_entry_find(root, path@);
            kf >= 0 ==> {
                let id = root[kf].1;
                &&& spec_nlinks_at(
                    old(fs).view(),
                    old(fs).spec_inode_pos(id).0,
                    old(fs).spec_inode_pos(id).1,
                ) >= 1
                &&& spec_inodes_disjoint(
                    old(fs).view(),
                    old(fs).spec_inode_pos(0).0,
                    old(fs).spec_inode_pos(0).1,
                    old(fs).spec_inode_pos(id).0,
                    old(fs).spec_inode_pos(id).1,
                )
                &&& forall|j: int|
                    0 <= j < root.len() && j != kf ==> (#[trigger] root[j]).0 != path@
            }
        }),
    ensures
        final(fs).wf(),
        ({
            let root = spec_dir_entries(
                old(fs).view(),
                old(fs).spec_inode_pos(0).0,
                old(fs).spec_inode_pos(0).1,
            );
            let kf = spec_entry_find(root, path@);
            &&& (r == 0) == (kf >= 0)
            &&& r == 0 || r == -1
            &&& r == -1 ==> crate::vfs::spec_same_fs(&*final(fs), &old(fs))
            &&& r == 0 ==> {
                let id = root[kf].1;
                &&& spec_dir_entries(
                    final(fs).view(),
                    old(fs).spec_inode_pos(0).0,
                    old(fs).spec_inode_pos(0).1,
                ) == root.update(kf, root.last()).drop_last()
                &&& spec_nlinks_at(
                    final(fs).view(),
                    old(fs).spec_inode_pos(id).0,
                    old(fs).spec_inode_pos(id).1,
                ) == spec_nlinks_at(
                    old(fs).view(),
                    old(fs).spec_inode_pos(id).0,
                    old(fs).spec_inode_pos(id).1,
                ) - 1
            }
        }),
{
    let root = fs.root_inode();
    let found = root.find(fs, path);
    proof {
        crate::vfs::lemma_entry_find_props(root.entries(&old(fs)), path@);
        let kf = spec_entry_find(root.entries(&old(fs)), path@);
        if kf >= 0 {
            let id = root.entries(&old(fs))[kf].1;
            assert(spec_dir_entries(
                old(fs).view(),
                old(fs).spec_inode_pos(0).0,
                old(fs).spec_inode_pos(0).1,
            )[kf] == root.entries(&old(fs))[kf]);
            assert(spec_inode_ok(
                &old(fs),
                old(fs).spec_inode_pos(id).0,
                old(fs).spec_inode_pos(id).1,
            ));
            old(fs).lemma_inode_pos_id_inverse(id);
        }
    }
    match found {
        Some(target) => {
            match root.unlink(fs, &target, path) {
                Some(st) => 0,
                None => -1,
            }
        },
        None => -1,
    }
}

/// Mode bits of a directory.
pub const STAT_MODE_DIR: u32 = 0o040000;

/// Mode bits of a regular file.
pub const STAT_MODE_FILE: u32 = 0o100000;

/// What `sys_fstat` reports of an open file: device, inode number, mode
/// bits and link count.
#[derive(Debug, Clone, Copy, PartialEq, Eq, Structural)]
pub struct Stat {
    pub dev: u64,
    pub ino: u64,
    pub mode: u32,
    pub nlink: u32,
}

/// sys_fstat: report the descriptor's inode number, mode and link count
/// into `st`; -1 when the descriptor is not open. The kernel copies the
/// record on into user memory.
pub fn sys_fstat(
    fs: &mut EasyFileSystem,
    proc: &ProcessState,
    fd: usize,
    st: &mut Stat,
) -> (r: isize)
    requires
        old(fs).wf(),
        proc.spec_fd_live(fd as int) ==> proc.fd_table@[fd as int].unwrap().inode.ok(&old(fs)),
    ensures
        final(fs).wf(),
        crate::vfs::spec_same_fs(&*final(fs), &old(fs)),
        (r == 0) == proc.spec_fd_live(fd as int),
        r == 0 || r == -1,
        r == 0 ==> {
            let ino = proc.fd_table@[fd as int].unwrap().inode;
            &&& final(st).dev == 0
            &&& final(st).ino == old(fs).spec_inode_id(
                ino.block_id as int,
                ino.block_offset as int,
            )
            &&& final(st).mode == (if spec_tag_at(
                old(fs).view(),
                ino.block_id as int,
                ino.block_offset as int,
            ) == 1u8 {
                STAT_MODE_DIR
            } else {
                STAT_MODE_FILE
            })
            &&& final(st).nlink == spec_nlinks_at(
                old(fs).view(),
                ino.block_id as int,
                ino.block_offset as int,
            )
        },
        r == -1 ==> *final(st) == *old(st),
{
    if fd >= proc.fd_table.len() {
        return -1;
    }
    match &proc.fd_table[fd] {
        Some(f) => {
            let ino = f.inode.get_inode_id(fs).unwrap();
            let is_dir = f.inode.is_dir(fs);
            let nlink = f.inode.link_nums(fs);
            st.dev = 0;
            st.ino = ino;
            st.mode = if is_dir {
                STAT_MODE_DIR
            } else {
                STAT_MODE_FILE
            };
            st.nlink = nlink;
            0
        },
        None => -1,
    }
}

} // verus!
