use easy_fs::efs::EasyFileSystem;
use easy_fs::mm::MemorySet;
use easy_fs::mm::VirtAddr;
use easy_fs::mm::MapPermission;
use easy_fs::mm::MAP_PERM_R;
use easy_fs::mm::MAP_PERM_W;
use easy_fs::mm::PAGE_SIZE;
use easy_fs::syscall::ProcessState;
use easy_fs::syscall::sys_open;
use easy_fs::syscall::sys_close;
use easy_fs::syscall::sys_read;
use easy_fs::syscall::sys_write;
use easy_fs::syscall::sys_linkat;
use easy_fs::syscall::sys_unlinkat;
use easy_fs::syscall::sys_mmap;
use easy_fs::syscall::sys_munmap;
use easy_fs::syscall::sys_sbrk;
use easy_fs::syscall::sys_yield;
use easy_fs::syscall::sys_fstat;
use easy_fs::syscall::Stat;
use easy_fs::syscall::STAT_MODE_FILE;
use easy_fs::syscall::TimeVal;
use easy_fs::syscall::OPEN_FLAG_CREATE;
use easy_fs::syscall::OPEN_FLAG_RDWR;
use easy_fs::task::TaskControlBlock;
use easy_fs::task::TaskStatus;
use easy_fs::task::kernel_stack_position;
use easy_fs::task::KERNEL_STACK_SIZE;

fn fresh_task() -> TaskControlBlock {
    let mut kernel_space = MemorySet::new_bare(0xdead);
    TaskControlBlock::new(MemorySet::new_bare(0x1000), 0x8000, 42, 0, &mut kernel_space, 17)
}

#[test]
fn open_write_close_read() {
    let mut fs = EasyFileSystem::create(300, 16);
    let mut proc = ProcessState::new();
    let fd = sys_open(&mut fs, &mut proc, b"log.txt", OPEN_FLAG_CREATE | OPEN_FLAG_RDWR);
    assert_eq!(fd, 0);
    let msg = b"hello kernel";
    assert_eq!(sys_write(&mut fs, &mut proc, fd as usize, msg), msg.len() as isize);
    assert_eq!(sys_close(&mut proc, fd as usize), 0);
    // reopen and read back
    let fd2 = sys_open(&mut fs, &mut proc, b"log.txt", OPEN_FLAG_RDWR);
    assert_eq!(fd2, 0);
    let mut buf = vec![0u8; msg.len()];
    assert_eq!(sys_read(&mut fs, &mut proc, fd2 as usize, &mut buf), msg.len() as isize);
    assert_eq!(buf.as_slice(), msg);
    // the cursor advanced to the end
    assert_eq!(sys_read(&mut fs, &mut proc, fd2 as usize, &mut buf), 0);
}

#[test]
fn open_absent_without_create_fails() {
    let mut fs = EasyFileSystem::create(300, 16);
    let mut proc = ProcessState::new();
    assert_eq!(sys_open(&mut fs, &mut proc, b"missing", OPEN_FLAG_RDWR), -1);
}

#[test]
fn close_bad_fd_fails() {
    let mut proc = ProcessState::new();
    assert_eq!(sys_close(&mut proc, 3), -1);
}

#[test]
fn write_bad_fd_fails() {
    let mut fs = EasyFileSystem::create(300, 16);
    let mut proc = ProcessState::new();
    assert_eq!(sys_write(&mut fs, &mut proc, 9, b"x"), -1);
}

#[test]
fn read_write_only_fd_fails() {
    let mut fs = EasyFileSystem::create(300, 16);
    let mut proc = ProcessState::new();
    let fd = sys_open(
        &mut fs,
        &mut proc,
        b"w",
        OPEN_FLAG_CREATE | easy_fs::syscall::OPEN_FLAG_WRONLY,
    );
    assert_eq!(fd, 0);
    let mut buf = vec![0u8; 4];
    assert_eq!(sys_read(&mut fs, &mut proc, fd as usize, &mut buf), -1);
}

#[test]
fn linkat_and_unlinkat() {
    let mut fs = EasyFileSystem::create(300, 16);
    let mut proc = ProcessState::new();
    let fd = sys_open(&mut fs, &mut proc, b"one", OPEN_FLAG_CREATE | OPEN_FLAG_RDWR);
    assert_eq!(sys_write(&mut fs, &mut proc, fd as usize, b"shared"), 6);
    sys_close(&mut proc, fd as usize);
    assert_eq!(sys_linkat(&mut fs, b"one", b"two"), 0);
    // the same content is reachable under the new name
    let fd2 = sys_open(&mut fs, &mut proc, b"two", OPEN_FLAG_RDWR);
    let mut buf = vec![0u8; 6];
    assert_eq!(sys_read(&mut fs, &mut proc, fd2 as usize, &mut buf), 6);
    assert_eq!(buf.as_slice(), b"shared");
    sys_close(&mut proc, fd2 as usize);
    // failure cases
    assert_eq!(sys_linkat(&mut fs, b"one", b"one"), -1);
    assert_eq!(sys_linkat(&mut fs, b"absent", b"three"), -1);
    assert_eq!(sys_linkat(&mut fs, b"one", b"two"), -1);
    // drop both names
    assert_eq!(sys_unlinkat(&mut fs, b"one"), 0);
    assert_eq!(sys_unlinkat(&mut fs, b"one"), -1);
    assert_eq!(sys_unlinkat(&mut fs, b"two"), 0);
    let root = fs.root_inode();
    assert!(root.ls(&mut fs).is_empty());
}

#[test]
fn mmap_and_munmap() {
    let mut task = fresh_task();
    assert_eq!(sys_mmap(&mut task, 0x10000, 2 * PAGE_SIZE, 0x3), 0);
    // overlap is refused
    assert_eq!(sys_mmap(&mut task, 0x10000, PAGE_SIZE, 0x3), -1);
    // unaligned start is refused
    assert_eq!(sys_mmap(&mut task, 0x30001, PAGE_SIZE, 0x3), -1);
    // bad permission bits are refused
    assert_eq!(sys_mmap(&mut task, 0x40000, PAGE_SIZE, 0x8), -1);
    assert_eq!(sys_mmap(&mut task, 0x50000, PAGE_SIZE, 0x0), -1);
    // unmap what was mapped
    assert_eq!(sys_munmap(&mut task, 0x10000, 2 * PAGE_SIZE), 0);
    // unmapping it twice fails: the pages are gone
    assert_eq!(sys_munmap(&mut task, 0x10000, 2 * PAGE_SIZE), -1);
}

#[test]
fn munmap_unmapped_fails() {
    let mut task = fresh_task();
    assert_eq!(sys_munmap(&mut task, 0x70000, PAGE_SIZE), -1);
}

#[test]
fn sbrk_moves_the_break() {
    let mut task = fresh_task();
    // give the task a heap area starting at its heap bottom
    task.memory_set.insert_framed_area(
        VirtAddr(task.heap_bottom),
        VirtAddr(task.heap_bottom),
        MapPermission::from_bits(MAP_PERM_R | MAP_PERM_W),
    );
    let old = task.program_brk;
    assert_eq!(sys_sbrk(&mut task, 4096), old as isize);
    assert_eq!(task.program_brk, old + 4096);
    assert_eq!(sys_sbrk(&mut task, -4096), (old + 4096) as isize);
    // moving below the heap bottom is refused
    assert_eq!(sys_sbrk(&mut task, -8192), -1);
}

#[test]
fn yield_marks_task_ready() {
    let mut task = fresh_task();
    task.task_status = TaskStatus::Running;
    assert_eq!(sys_yield(&mut task), 0);
    assert!(task.task_status == TaskStatus::Ready);
}

#[test]
fn new_task_control_block() {
    let mut kernel_space = MemorySet::new_bare(0xdead);
    let task = TaskControlBlock::new(
        MemorySet::new_bare(0x1000),
        0x8000,
        42,
        3,
        &mut kernel_space,
        17,
    );
    assert!(task.task_status == TaskStatus::Ready);
    assert_eq!(task.base_size, 0x8000);
    assert_eq!(task.heap_bottom, 0x8000);
    assert_eq!(task.program_brk, 0x8000);
    assert_eq!(task.trap_cx_ppn, 42);
    assert_eq!(task.timestamp, 17);
    assert!(task.task_info.status == TaskStatus::UnInit);
    assert_eq!(task.task_info.time, 0);
    assert!(task.task_info.syscall_times.iter().all(|c| *c == 0));
    // the kernel stack is mapped in the kernel's address space
    assert_eq!(kernel_space.areas.len(), 1);
    let (bottom, top) = kernel_stack_position(3);
    assert_eq!(top - bottom, KERNEL_STACK_SIZE);
    assert_eq!(kernel_space.areas[0].start_vpn, bottom / PAGE_SIZE);
    assert_eq!(task.get_user_token(), 0x1000);
}

#[test]
fn translate_finds_mapped_pages() {
    let mut ms = MemorySet::new_bare(7);
    assert!(ms.translate(5).is_none());
    ms.insert_framed_area(
        VirtAddr(5 * PAGE_SIZE),
        VirtAddr(7 * PAGE_SIZE),
        MapPermission::from_bits(MAP_PERM_R),
    );
    assert!(ms.translate(5).is_some());
    assert!(ms.translate(6).is_some());
    assert!(ms.translate(7).is_none());
    assert_eq!(ms.token(), 7);
}

#[test]
fn time_val_fields() {
    let tv = TimeVal { sec: 3, usec: 250000 };
    assert_eq!(tv.sec, 3);
    assert_eq!(tv.usec, 250000);
}

#[test]
fn fstat_reports_inode_and_links() {
    let mut fs = EasyFileSystem::create(300, 16);
    let mut proc = ProcessState::new();
    let fd = sys_open(&mut fs, &mut proc, b"f", OPEN_FLAG_CREATE | OPEN_FLAG_RDWR);
    assert_eq!(sys_linkat(&mut fs, b"f", b"g"), 0);
    let mut st = Stat { dev: 9, ino: 9, mode: 9, nlink: 9 };
    assert_eq!(sys_fstat(&mut fs, &proc, fd as usize, &mut st), 0);
    assert_eq!(st.dev, 0);
    assert_eq!(st.ino, 1);
    assert_eq!(st.mode, STAT_MODE_FILE);
    assert_eq!(st.nlink, 2);
    // a closed descriptor reports nothing and leaves the record alone
    sys_close(&mut proc, fd as usize);
    let before = st;
    assert_eq!(sys_fstat(&mut fs, &proc, fd as usize, &mut st), -1);
    assert_eq!(st, before);
}
