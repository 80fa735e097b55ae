use easy_fs::dirent::DirEntry;
use easy_fs::dirent::DIRENT_SZ;
use easy_fs::efs::EasyFileSystem;
use easy_fs::layout::DiskInode;
use easy_fs::layout::DiskInodeType;
use easy_fs::BLOCK_SZ;

fn free_data_blocks(fs: &EasyFileSystem) -> usize {
    let mut n = 0;
    for i in 0..fs.data_bitmap.len() {
        if !fs.data_bitmap[i] {
            n += 1;
        }
    }
    n
}

#[test]
fn dirent_round_trip_concrete() {
    let e = DirEntry::new(b"hello.txt", 7);
    let bytes = e.as_bytes();
    assert_eq!(bytes.len(), DIRENT_SZ);
    let d = DirEntry::from_bytes(bytes.as_slice());
    assert_eq!(d.name().as_slice(), b"hello.txt");
    assert_eq!(d.inode_id(), 7);
}

#[test]
fn dirent_round_trip_max_name() {
    let name = [b'a'; 27];
    let e = DirEntry::new(&name, u32::MAX);
    let d = DirEntry::from_bytes(e.as_bytes().as_slice());
    assert_eq!(d.name().as_slice(), &name);
    assert_eq!(d.inode_id(), u32::MAX);
}

#[test]
fn dirent_empty_is_all_zero() {
    let e = DirEntry::empty();
    let bytes = e.as_bytes();
    assert_eq!(bytes, vec![0u8; DIRENT_SZ]);
}

#[test]
fn total_blocks_formula() {
    assert_eq!(DiskInode::total_blocks(0), 0);
    assert_eq!(DiskInode::total_blocks(1), 1);
    assert_eq!(DiskInode::total_blocks(512), 1);
    assert_eq!(DiskInode::total_blocks(513), 2);
    assert_eq!(DiskInode::total_blocks(27 * 512), 27);
    // one more byte takes a 28th data block and the indirect block
    assert_eq!(DiskInode::total_blocks(27 * 512 + 1), 29);
}

#[test]
fn size_block_invariant_across_resizes() {
    let mut d = DiskInode {
        type_: DiskInodeType::File,
        size: 0,
        nlinks: 0,
        blocks: Vec::new(),
        indirect1: 0,
    };
    d.initialize(DiskInodeType::File);
    assert_eq!(d.blocks.len(), 0);
    // grow to 3 blocks
    let needed = d.blocks_num_needed(1500);
    assert_eq!(needed, 3);
    d.increase_size(1500, vec![10, 11, 12]);
    assert_eq!(d.blocks.len(), 3);
    assert_eq!(d.size, 1500);
    // shrink to 1 block
    let freed = d.decrease_size(512);
    assert_eq!(freed, vec![11, 12]);
    assert_eq!(d.blocks.len(), 1);
    // clear the rest
    let freed2 = d.clear_size();
    assert_eq!(freed2, vec![10]);
    assert_eq!(d.size, 0);
    assert_eq!(d.blocks.len(), 0);
}

#[test]
fn inode_pos_id_inverse_concrete() {
    let fs = EasyFileSystem::create(200, 16);
    for i in 0..16u32 {
        let (bid, off) = fs.get_disk_inode_pos(i);
        assert_eq!(fs.get_disk_inode_id(bid, off), i);
    }
}

#[test]
fn create_find_consistency() {
    let mut fs = EasyFileSystem::create(200, 16);
    let root = fs.root_inode();
    assert!(root.find(&mut fs, b"a.txt").is_none());
    let f = root.create(&mut fs, b"a.txt").unwrap();
    assert!(f.is_file(&mut fs));
    assert!(!f.is_dir(&mut fs));
    let mut buf = vec![0u8; 16];
    assert_eq!(f.read_at(&mut fs, 0, &mut buf), 0);
    let names = root.ls(&mut fs);
    assert_eq!(names, vec![b"a.txt".to_vec()]);
    let g = root.find(&mut fs, b"a.txt").unwrap();
    assert_eq!(g.block_id, f.block_id);
    assert_eq!(g.block_offset, f.block_offset);
    // a second create under the same name is refused
    assert!(root.create(&mut fs, b"a.txt").is_none());
}

#[test]
fn read_write_round_trip() {
    let mut fs = EasyFileSystem::create(200, 16);
    let root = fs.root_inode();
    let f = root.create(&mut fs, b"data").unwrap();
    let payload: Vec<u8> = (0..200u32).map(|i| (i % 251) as u8).collect();
    assert_eq!(f.write_at(&mut fs, 0, payload.as_slice()), 200);
    let mut buf = vec![0u8; 200];
    assert_eq!(f.read_at(&mut fs, 0, &mut buf), 200);
    assert_eq!(buf, payload);
    // a write that straddles a block boundary
    let patch = vec![0xABu8; 40];
    assert_eq!(f.write_at(&mut fs, 500, patch.as_slice()), 40);
    let mut buf2 = vec![0u8; 40];
    assert_eq!(f.read_at(&mut fs, 500, &mut buf2), 40);
    assert_eq!(buf2, patch);
    // reading past the end gives nothing
    let mut buf3 = vec![7u8; 8];
    assert_eq!(f.read_at(&mut fs, 100000, &mut buf3), 0);
    assert_eq!(buf3, vec![7u8; 8]);
}

#[test]
fn write_growth_allocates_exactly() {
    let mut fs = EasyFileSystem::create(200, 16);
    let root = fs.root_inode();
    let f = root.create(&mut fs, b"grow").unwrap();
    let before = free_data_blocks(&fs);
    let payload = vec![0x5Au8; 100];
    // write at 4096 on an empty file with 512-byte blocks
    assert_eq!(f.write_at(&mut fs, 4096, payload.as_slice()), 100);
    let after = free_data_blocks(&fs);
    let needed = DiskInode::total_blocks(4096 + 100) as usize;
    assert_eq!(before - after, needed);
    // the file now covers at least 4096 + 100 bytes
    let mut buf = vec![0u8; 100];
    assert_eq!(f.read_at(&mut fs, 4096, &mut buf), 100);
    assert_eq!(buf, payload);
}

#[test]
fn growth_through_indirect_block() {
    let mut fs = EasyFileSystem::create(200, 16);
    let root = fs.root_inode();
    let f = root.create(&mut fs, b"big").unwrap();
    // 30 data blocks: past the 27 direct pointers
    let payload: Vec<u8> = (0..15360u32).map(|i| (i % 241) as u8).collect();
    assert_eq!(f.write_at(&mut fs, 0, payload.as_slice()), 15360);
    let mut buf = vec![0u8; 15360];
    assert_eq!(f.read_at(&mut fs, 0, &mut buf), 15360);
    assert_eq!(buf, payload);
}

#[test]
fn clear_reclaims_blocks() {
    let mut fs = EasyFileSystem::create(200, 16);
    let root = fs.root_inode();
    let f = root.create(&mut fs, b"tmp").unwrap();
    let before = free_data_blocks(&fs);
    let payload = vec![1u8; 2000];
    f.write_at(&mut fs, 0, payload.as_slice());
    f.clear(&mut fs);
    assert_eq!(free_data_blocks(&fs), before);
    let mut buf = vec![9u8; 4];
    assert_eq!(f.read_at(&mut fs, 0, &mut buf), 0);
}

#[test]
fn link_scenario() {
    let mut fs = EasyFileSystem::create(300, 16);
    let root = fs.root_inode();
    let f = root.create(&mut fs, b"x").unwrap();
    let payload = b"the payload".to_vec();
    assert_eq!(f.write_at(&mut fs, 0, payload.as_slice()), payload.len());
    let before = free_data_blocks(&fs);
    let g = root.link(&mut fs, &f, b"y").unwrap();
    assert_eq!(f.link_nums(&mut fs), 2);
    assert_eq!(g.link_nums(&mut fs), 2);
    // linking under a taken name is refused
    assert!(root.link(&mut fs, &f, b"y").is_none());
    // drop the first name
    assert_eq!(root.unlink(&mut fs, &f, b"x"), Some(0));
    assert_eq!(g.link_nums(&mut fs), 1);
    let names = root.ls(&mut fs);
    assert_eq!(names, vec![b"y".to_vec()]);
    let h = root.find(&mut fs, b"y").unwrap();
    let mut buf = vec![0u8; payload.len()];
    assert_eq!(h.read_at(&mut fs, 0, &mut buf), payload.len());
    assert_eq!(buf, payload);
    // drop the last name: full reclamation of the file's block, and the
    // emptied directory hands its own data block back too
    assert_eq!(root.unlink(&mut fs, &h, b"y"), Some(0));
    assert!(root.ls(&mut fs).is_empty());
    assert_eq!(free_data_blocks(&fs), before + 2);
}

#[test]
fn compaction_keeps_entry_set() {
    let mut fs = EasyFileSystem::create(300, 16);
    let root = fs.root_inode();
    let x = root.create(&mut fs, b"x").unwrap();
    let y = root.create(&mut fs, b"y").unwrap();
    let z = root.create(&mut fs, b"z").unwrap();
    let _ = x;
    let _ = z;
    // remove the middle entry: the tail entry takes its slot
    assert_eq!(root.unlink(&mut fs, &y, b"y"), Some(0));
    let names = root.ls(&mut fs);
    assert_eq!(names, vec![b"x".to_vec(), b"z".to_vec()]);
    // remove the tail entry
    let zf = root.find(&mut fs, b"z").unwrap();
    assert_eq!(root.unlink(&mut fs, &zf, b"z"), Some(0));
    assert_eq!(root.ls(&mut fs), vec![b"x".to_vec()]);
}

#[test]
fn inode_id_of_created_files() {
    let mut fs = EasyFileSystem::create(200, 16);
    let root = fs.root_inode();
    assert_eq!(root.get_inode_id(&fs), Some(0));
    let f = root.create(&mut fs, b"first").unwrap();
    assert_eq!(f.get_inode_id(&fs), Some(1));
    let g = root.create(&mut fs, b"second").unwrap();
    assert_eq!(g.get_inode_id(&fs), Some(2));
}

#[test]
fn reclaimed_inode_slot_is_reused() {
    let mut fs = EasyFileSystem::create(200, 16);
    let root = fs.root_inode();
    let f = root.create(&mut fs, b"gone").unwrap();
    let id = f.get_inode_id(&fs).unwrap();
    assert_eq!(root.unlink(&mut fs, &f, b"gone"), Some(0));
    let g = root.create(&mut fs, b"next").unwrap();
    assert_eq!(g.get_inode_id(&fs).unwrap(), id);
}

#[test]
fn cache_eviction_under_pressure() {
    // more blocks than the cache holds, written then read back
    let mut fs = EasyFileSystem::create(300, 16);
    let root = fs.root_inode();
    let f = root.create(&mut fs, b"wide").unwrap();
    let payload: Vec<u8> = (0..20000u32).map(|i| (i % 199) as u8).collect();
    assert_eq!(f.write_at(&mut fs, 0, payload.as_slice()), 20000);
    let mut buf = vec![0u8; 20000];
    assert_eq!(f.read_at(&mut fs, 0, &mut buf), 20000);
    assert_eq!(buf, payload);
}

#[test]
fn durability_after_sync() {
    let mut fs = EasyFileSystem::create(200, 16);
    let root = fs.root_inode();
    let f = root.create(&mut fs, b"solid").unwrap();
    let payload = b"written through".to_vec();
    f.write_at(&mut fs, 0, payload.as_slice());
    // write_at ends with a full sync: the device holds what the cache shows
    for b in 0..fs.cache.device.blocks.len() {
        assert_eq!(fs.cache.device.blocks[b].len(), BLOCK_SZ);
    }
    let _ = f;
}
