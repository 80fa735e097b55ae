//! Task control: the task control block, its status, and the decisions the
//! task layer takes for the memory-map, heap and scheduling syscalls. The
//! scheduler itself, trap handling and physical-memory access stay with the
//! kernel; this module owns the state transitions they act on.
use vstd::prelude::*;

use crate::mm::MemorySet;
use crate::mm::MapPermission;
use crate::mm::MapArea;
use crate::mm::VirtAddr;
use crate::mm::PAGE_SIZE;
use crate::mm::MAP_PERM_R;
use crate::mm::MAP_PERM_W;
use crate::mm::MAP_PERM_U;
use crate::mm::spec_floor;
use crate::mm::spec_ceil;
use crate::mm::has_area_starting;
use vstd::array::array_fill_for_copy_types;

verus! {

/// Greatest syscall number the per-task counters cover.
pub const MAX_SYSCALL_NUM: usize = 500;

/// Size in bytes of one kernel stack.
pub const KERNEL_STACK_SIZE: usize = 8192;

/// Virtual address of the trampoline page, the highest page of the address
/// space.
pub const TRAMPOLINE: usize = usize::MAX - PAGE_SIZE + 1;

/// task status: UnInit, Ready, Running, Exited
#[derive(Copy, Clone, PartialEq, Eq, Structural, Debug)]
pub enum TaskStatus {
    /// uninitialized
    UnInit,
    /// ready to run
    Ready,
    /// running
    Running,
    /// exited
    Exited,
}

/// Task information
#[derive(Copy, Clone)]
pub struct TaskInfo {
    /// Task status in it's life cycle
    pub status: TaskStatus,
    /// The numbers of syscall called by task
    pub syscall_times: [u32; MAX_SYSCALL_NUM],
    /// Total running time of task
    pub time: usize,
}

/// The callee-saved register context a task switch restores.
#[derive(Copy, Clone, PartialEq, Eq, Structural, Debug)]
pub struct TaskContext {
    /// Return address to continue at; zero stands for the kernel's
    /// trap-return entry.
    pub ra: usize,
    /// Kernel stack pointer.
    pub sp: usize,
}

impl TaskContext {
    /// A context that resumes at the trap-return entry on the given kernel
    /// stack.
    pub fn goto_trap_return(kstack_ptr: usize) -> (r: TaskContext)
        ensures
            r.sp == kstack_ptr,
            r.ra == 0,
    {
        TaskContext { ra: 0, sp: kstack_ptr }
    }
}

/// Bottom and top of the kernel stack of application `app_id`, laid out
/// downwards from the trampoline with one guard page between stacks.
pub fn kernel_stack_position(app_id: usize) -> (r: (usize, usize))
    requires
        (app_id + 1) * (KERNEL_STACK_SIZE + PAGE_SIZE) <= TRAMPOLINE,
    ensures
        r.1 == TRAMPOLINE - app_id * (KERNEL_STACK_SIZE + PAGE_SIZE),
        r.0 == r.1 - KERNEL_STACK_SIZE,
{
    proof {
        assert(app_id * (KERNEL_STACK_SIZE + PAGE_SIZE) + (KERNEL_STACK_SIZE + PAGE_SIZE) <= TRAMPOLINE)
            by (nonlinear_arith)
            requires
                (app_id + 1) * (KERNEL_STACK_SIZE + PAGE_SIZE) <= TRAMPOLINE,
        ;
    }
    let top = TRAMPOLINE - app_id * (KERNEL_STACK_SIZE + PAGE_SIZE);
    let bottom = top - KERNEL_STACK_SIZE;
    (bottom, top)
}

/// The task control block (TCB) of a task.
pub struct TaskControlBlock {
    /// Save task context
    pub task_cx: TaskContext,
    /// Maintain the execution status of the current process
    pub task_status: TaskStatus,
    /// The task information
    pub task_info: TaskInfo,
    /// The first start timestamp
    pub timestamp: usize,
    /// Application address space
    pub memory_set: MemorySet,
    /// The phys page number of trap context
    pub trap_cx_ppn: usize,
    /// The size(top addr) of program which is loaded from elf file
    pub base_size: usize,
    /// Heap bottom
    pub heap_bottom: usize,
    /// Program break
    pub program_brk: usize,
}

/// The permission an area mapped by `syscall_mmap` carries for request bits
/// `port`: user-accessible, readable when bit 0 is set, writable when bit 1
/// or bit 2 is set.
pub open spec fn spec_mmap_perm_bits(port: usize) -> u8 {
    MAP_PERM_U | (if port & 1 != 0 {
        MAP_PERM_R
    } else {
        0u8
    }) | (if port & 2 != 0 {
        MAP_PERM_W
    } else {
        0u8
    }) | (if port & 4 != 0 {
        MAP_PERM_W
    } else {
        0u8
    })
}

/// Whether a `syscall_mmap` request over `[start, start + len)` with bits
/// `port` is accepted against address space `ms`: a nonempty page range,
/// page-aligned start, only the three low permission bits, at least one of
/// them set, and no page of the range mapped yet.
pub open spec fn spec_mmap_ok(ms: &MemorySet, start: usize, len: usize, port: usize) -> bool {
    &&& spec_floor(start) < spec_ceil((start + len) as usize)
    &&& start % PAGE_SIZE == 0
    &&& port & !0x7 == 0
    &&& port & 0x7 != 0
    &&& forall|vpn: int|
        spec_floor(start) <= vpn < spec_ceil((start + len) as usize) ==> !ms.spec_mapped(vpn)
}

/// Whether a `syscall_munmap` request over `[start, start + len)` is
/// accepted against address space `ms`: a nonempty page range, page-aligned
/// start, every page of the range mapped, and an area starting exactly at
/// `start`'s page.
pub open spec fn spec_munmap_ok(ms: &MemorySet, start: usize, len: usize) -> bool {
    &&& spec_floor(start) < spec_ceil((start + len) as usize)
    &&& start % PAGE_SIZE == 0
    &&& forall|vpn: int|
        spec_floor(start) <= vpn < spec_ceil((start + len) as usize) ==> ms.spec_mapped(vpn)
    &&& has_area_starting(ms.areas@, spec_floor(start))
}

impl TaskControlBlock {
    /// get the user token
    pub fn get_user_token(&self) -> (r: usize)
        ensures
            r == self.memory_set.token,
    {
        self.memory_set.token()
    }

    /// Build the control block of a task: a fresh context resuming at
    /// trap return on its kernel stack, status `Ready`, heap and break at
    /// the user stack top, and the kernel stack mapped into the kernel's
    /// address space. The caller parses the program image and builds
    /// `memory_set`, `user_sp` and `trap_cx_ppn` from it, and writes the
    /// initial trap frame into physical memory afterwards.
    pub fn new(
        memory_set: MemorySet,
        user_sp: usize,
        trap_cx_ppn: usize,
        app_id: usize,
        kernel_space: &mut MemorySet,
        now_ms: usize,
    ) -> (r: TaskControlBlock)
        requires
            (app_id + 1) * (KERNEL_STACK_SIZE + PAGE_SIZE) <= TRAMPOLINE,
        ensures
            r.task_status == TaskStatus::Ready,
            r.task_cx.sp == TRAMPOLINE - app_id * (KERNEL_STACK_SIZE + PAGE_SIZE),
            r.task_info.status == TaskStatus::UnInit,
            r.task_info.time == 0,
            forall|i: int| 0 <= i < MAX_SYSCALL_NUM ==> r.task_info.syscall_times@[i] == 0,
            r.timestamp == now_ms,
            r.memory_set == memory_set,
            r.trap_cx_ppn == trap_cx_ppn,
            r.base_size == user_sp,
            r.heap_bottom == user_sp,
            r.program_brk == user_sp,
            final(kernel_space).token == old(kernel_space).token,
            final(kernel_space).areas@ == old(kernel_space).areas@.push(
                MapArea {
                    start_vpn: spec_floor(
                        (TRAMPOLINE - app_id * (KERNEL_STACK_SIZE + PAGE_SIZE)
                            - KERNEL_STACK_SIZE) as usize,
                    ) as usize,
                    end_vpn: spec_ceil(
                        (TRAMPOLINE - app_id * (KERNEL_STACK_SIZE + PAGE_SIZE)) as usize,
                    ) as usize,
                    perm: MapPermission { bits: MAP_PERM_R | MAP_PERM_W },
                },
            ),
    {
        let task_status = TaskStatus::Ready;
        let (kernel_stack_bottom, kernel_stack_top) = kernel_stack_position(app_id);
        kernel_space.insert_framed_area(
            VirtAddr(kernel_stack_bottom),
            VirtAddr(kernel_stack_top),
            MapPermission::from_bits(MAP_PERM_R | MAP_PERM_W),
        );
        let task_info = TaskInfo {
            status: TaskStatus::UnInit,
            syscall_times: array_fill_for_copy_types(0u32),
            time: 0,
        };
        TaskControlBlock {
            task_status,
            task_cx: TaskContext::goto_trap_return(kernel_stack_top),
            memory_set,
            trap_cx_ppn,
            base_size: user_sp,
            heap_bottom: user_sp,
            program_brk: user_sp,
            task_info,
            timestamp: now_ms,
        }
    }

    /// actual impl syscall_mmap, we create map_perm and insert_framed_area for it
    pub fn syscall_mmap(&mut self, start: usize, len: usize, port: usize) -> (r: isize)
        requires
            start + len <= usize::MAX - PAGE_SIZE + 1,
        ensures
            r == 0 || r == -1,
            (r == 0) == spec_mmap_ok(&old(self).memory_set, start, len, port),
            r == 0 ==> final(self).memory_set.areas@ == old(self).memory_set.areas@.push(
                MapArea {
                    start_vpn: spec_floor(start) as usize,
                    end_vpn: spec_ceil((start + len) as usize) as usize,
                    perm: MapPermission { bits: spec_mmap_perm_bits(port) },
                },
            ),
            r == -1 ==> final(self).memory_set.areas@ == old(self).memory_set.areas@,
            final(self).memory_set.token == old(self).memory_set.token,
            final(self).task_status == old(self).task_status,
            final(self).program_brk == old(self).program_brk,
            final(self).heap_bottom == old(self).heap_bottom,
    {
        let start_v = VirtAddr(start);
        let end_v = VirtAddr(start + len);
        let start_vpn = start_v.floor();
        let end_vpn = end_v.ceil();
        if start_vpn >= end_vpn {
            return -1;
        }
        let mut ret: isize = 0;
        if !start_v.aligned() {
            ret = -1;
        }
        if port & !0x7 != 0 {
            ret = -1;
        }
        if port & 0x7 == 0 {
            ret = -1;
        }
        let mut vpn = start_vpn;
        while vpn < end_vpn
            invariant
                start_vpn <= vpn <= end_vpn,
                start_vpn == spec_floor(start),
                end_vpn == spec_ceil((start + len) as usize),
                self == old(self),
                (ret == 0 || ret == -1),
                (ret == 0) == (start % PAGE_SIZE == 0 && port & !0x7 == 0 && port & 0x7 != 0
                    && (forall|v: int| start_vpn <= v < vpn ==> !self.memory_set.spec_mapped(v))),
            decreases end_vpn - vpn,
        {
            if self.memory_set.translate(vpn).is_some() {
                ret = -1;
            }
            vpn += 1;
        }
        if ret == 0 {
            let bits: u8 = MAP_PERM_U | (if port & 1 != 0 {
                MAP_PERM_R
            } else {
                0u8
            }) | (if port & 2 != 0 {
                MAP_PERM_W
            } else {
                0u8
            }) | (if port & 4 != 0 {
                MAP_PERM_W
            } else {
                0u8
            });
            let map_perm = MapPermission::from_bits(bits);
            self.memory_set.insert_framed_area(start_v, end_v, map_perm);
        }
        ret
    }

    /// actual impl syscall_munmap: refuse the request unless the whole page
    /// range is mapped, then empty the area starting at `start`'s page.
    pub fn syscall_munmap(&mut self, start: usize, len: usize) -> (r: isize)
        requires
            start + len <= usize::MAX - PAGE_SIZE + 1,
        ensures
            r == 0 || r == -1,
            (r == 0) == spec_munmap_ok(&old(self).memory_set, start, len),
            r == 0 ==> exists|i: int|
                {
                    &&& 0 <= i < old(self).memory_set.areas@.len()
                    &&& (#[trigger] old(self).memory_set.areas@[i]).start_vpn == spec_floor(start)
                    &&& final(self).memory_set.areas@ == old(self).memory_set.areas@.update(
                        i,
                        MapArea {
                            start_vpn: old(self).memory_set.areas@[i].start_vpn,
                            end_vpn: spec_ceil(start) as usize,
                            perm: old(self).memory_set.areas@[i].perm,
                        },
                    )
                },
            r == -1 ==> final(self).memory_set.areas@ == old(self).memory_set.areas@,
            final(self).memory_set.token == old(self).memory_set.token,
            final(self).task_status == old(self).task_status,
            final(self).program_brk == old(self).program_brk,
            final(self).heap_bottom == old(self).heap_bottom,
    {
        let start_v = VirtAddr(start);
        let end_v = VirtAddr(start + len);
        let start_vpn = start_v.floor();
        let end_vpn = end_v.ceil();
        if start_vpn >= end_vpn {
            return -1;
        }
        if !start_v.aligned() {
            return -1;
        }
        let mut vpn = start_vpn;
        while vpn < end_vpn
            invariant
                start_vpn <= vpn <= end_vpn,
                start_vpn == spec_floor(start),
                end_vpn == spec_ceil((start + len) as usize),
                self == old(self),
                forall|v: int| start_vpn <= v < vpn ==> self.memory_set.spec_mapped(v),
            decreases end_vpn - vpn,
        {
            if self.memory_set.translate(vpn).is_none() {
                return -1;
            }
            vpn += 1;
        }
        if self.memory_set.shrink_to(start_v, start_v) {
            0
        } else {
            -1
        }
    }

    /// change the location of the program break. return None if failed.
    pub fn change_program_brk(&mut self, size: i32) -> (r: Option<usize>)
        requires
            old(self).program_brk <= isize::MAX,
            old(self).heap_bottom <= isize::MAX,
            old(self).program_brk + size <= isize::MAX,
        ensures
            final(self).task_status == old(self).task_status,
            final(self).heap_bottom == old(self).heap_bottom,
            final(self).memory_set.token == old(self).memory_set.token,
            r.is_some() <==> (old(self).program_brk + size >= old(self).heap_bottom
                && has_area_starting(
                old(self).memory_set.areas@,
                spec_floor(old(self).heap_bottom as usize),
            )),
            r.is_some() ==> {
                &&& r == Some(old(self).program_brk)
                &&& final(self).program_brk == old(self).program_brk + size
                &&& exists|i: int|
                    {
                        &&& 0 <= i < old(self).memory_set.areas@.len()
                        &&& (#[trigger] old(self).memory_set.areas@[i]).start_vpn == spec_floor(
                            old(self).heap_bottom as usize,
                        )
                        &&& final(self).memory_set.areas@ == old(self).memory_set.areas@.update(
                            i,
                            MapArea {
                                start_vpn: old(self).memory_set.areas@[i].start_vpn,
                                end_vpn: spec_ceil(
                                    (old(self).program_brk + size) as usize,
                                ) as usize,
                                perm: old(self).memory_set.areas@[i].perm,
                            },
                        )
                    }
            },
            r.is_none() ==> final(self).program_brk == old(self).program_brk
                && final(self).memory_set.areas@ == old(self).memory_set.areas@,
    {
        let old_break = self.program_brk;
        let new_brk: isize = self.program_brk as isize + size as isize;
        if new_brk < self.heap_bottom as isize {
            return None;
        }
        let result = if size < 0 {
            self.memory_set.shrink_to(VirtAddr(self.heap_bottom), VirtAddr(new_brk as usize))
        } else {
            self.memory_set.append_to(VirtAddr(self.heap_bottom), VirtAddr(new_brk as usize))
        };
        if result {
            self.program_brk = new_brk as usize;
            Some(old_break)
        } else {
            None
        }
    }
}

} // verus!
