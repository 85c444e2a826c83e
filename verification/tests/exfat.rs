//! The file system as a whole.

use exfat_core::errno::Errno;
use exfat_core::exfat::constants::{EXFAT_RESERVED_CLUSTERS, MAX_NAME_LENGTH, PAGE_SIZE};
use exfat_core::exfat::dentry::DosTimestamp;
use exfat_core::exfat::disk::{Disk, ExfatMemoryDisk};
use exfat_core::exfat::fs::dir::Dirent;
use exfat_core::exfat::fs::{ExfatFS, ExfatInode};
use exfat_core::exfat::inode::{InodeMode, InodeType};
use exfat_core::exfat::mount::ExfatMountOptions;
use exfat_core::random_test::generate::generate_random_operation;
use exfat_core::random_test::random::RandomSource;
use exfat_core::random_test::{new_fs_in_memory, DentryInMemory};

const NOW: DosTimestamp = DosTimestamp {
    time: 0x6c5a,
    date: 0x57a3,
    increament_10ms: 17,
    utc_offset: 0x80,
};

const CLUSTER_COUNT: u32 = 3000;
const FAT_SECTOR: u32 = 24;
const FAT_SECTORS: u32 = 24;
const DATA_SECTOR: u32 = 48;

fn put(image: &mut [u8], at: usize, bytes: &[u8]) {
    image[at..at + bytes.len()].copy_from_slice(bytes);
}

/// A volume with sectors of 512 bytes: the bitmap, the up-case table and the root directory
/// take a cluster each.
fn image_with(cluster_size: usize, clusters: u32) -> Vec<u8> {
    let data = DATA_SECTOR as usize * 512;
    let mut image = vec![0u8; data + clusters as usize * cluster_size];
    put(&mut image, 3, b"EXFAT   ");
    put(&mut image, 80, &FAT_SECTOR.to_le_bytes());
    put(&mut image, 84, &FAT_SECTORS.to_le_bytes());
    put(&mut image, 88, &DATA_SECTOR.to_le_bytes());
    put(&mut image, 92, &clusters.to_le_bytes());
    put(&mut image, 96, &4u32.to_le_bytes());
    image[108] = 9;
    image[109] = (cluster_size / 512).trailing_zeros() as u8;
    image[110] = 1;
    put(&mut image, 510, &0xAA55u16.to_le_bytes());
    let fat = FAT_SECTOR as usize * 512;
    for cluster in 2..5 {
        put(&mut image, fat + cluster * 4, &0xFFFF_FFFFu32.to_le_bytes());
    }
    image[data] = 0b111;
    let root = data + 2 * cluster_size;
    image[root] = 0x81;
    put(&mut image, root + 20, &2u32.to_le_bytes());
    put(&mut image, root + 24, &375u64.to_le_bytes());
    image[root + 32] = 0x82;
    put(&mut image, root + 32 + 20, &3u32.to_le_bytes());
    put(&mut image, root + 32 + 24, &128u64.to_le_bytes());
    image
}

/// A volume with clusters of 4096 bytes.
fn image() -> Vec<u8> {
    image_with(4096, CLUSTER_COUNT)
}

/// A disk in memory.
fn disk(image: Vec<u8>) -> Disk {
    Disk { device: Box::new(ExfatMemoryDisk::new(image)) }
}

fn open(image: Vec<u8>) -> Result<ExfatFS, Errno> {
    ExfatFS::open(disk(image), ExfatMountOptions::default(), NOW)
}

fn load_exfat() -> ExfatFS {
    match open(image()) {
        Ok(fs) => fs,
        Err(e) => panic!("Fs failed to init: {:?}", e),
    }
}

fn create_file(fs: &mut ExfatFS, parent: ExfatInode, name: &str) -> ExfatInode {
    parent.create(fs, name, InodeType::File, InodeMode::all(), NOW).unwrap()
}

fn create_folder(fs: &mut ExfatFS, parent: ExfatInode, name: &str) -> ExfatInode {
    parent.create(fs, name, InodeType::Dir, InodeMode::all(), NOW).unwrap()
}

fn names(fs: &mut ExfatFS, dir: ExfatInode) -> Vec<String> {
    let mut entries: Vec<Dirent> = Vec::new();
    let count = dir.readdir_at(fs, 0, &mut entries).unwrap();
    assert_eq!(count, entries.len());
    entries.into_iter().map(|entry| entry.name).collect()
}

fn sorted_names(fs: &mut ExfatFS, dir: ExfatInode) -> Vec<String> {
    let mut all = names(fs, dir);
    all.sort();
    all
}

#[test]
fn test_new_exfat() {
    load_exfat();
}

#[test]
fn test_create() {
    let mut fs = load_exfat();
    let root = fs.root_inode();
    let file_name = "a.txt";
    create_file(&mut fs, root, file_name);
    let dir_name = "b";
    create_folder(&mut fs, root, dir_name);

    let file_again = root.create(&mut fs, dir_name, InodeType::File, InodeMode::all(), NOW);
    let dir_again = root.create(&mut fs, file_name, InodeType::Dir, InodeMode::all(), NOW);
    assert_eq!(file_again, Err(Errno::EEXIST));
    assert_eq!(dir_again, Err(Errno::EEXIST));

    let long_file_name = "x".repeat(MAX_NAME_LENGTH);
    assert!(root.create(&mut fs, &long_file_name, InodeType::File, InodeMode::all(), NOW).is_ok());
    let long_dir_name = "y".repeat(MAX_NAME_LENGTH);
    assert!(root.create(&mut fs, &long_dir_name, InodeType::Dir, InodeMode::all(), NOW).is_ok());

    let too_long = "z".repeat(MAX_NAME_LENGTH + 1);
    assert_eq!(
        root.create(&mut fs, &too_long, InodeType::File, InodeMode::all(), NOW),
        Err(Errno::ENAMETOOLONG)
    );
}

#[test]
fn test_create_and_list_file() {
    let mut file_names: Vec<String> = (0..100).map(|x| x.to_string().repeat(50)).collect();
    file_names.sort();

    let mut fs = load_exfat();
    let root = fs.root_inode();

    for (file_id, file_name) in file_names.iter().enumerate() {
        create_file(&mut fs, root, file_name);
        let mut entries: Vec<Dirent> = Vec::new();
        let read_result = root.readdir_at(&mut fs, 0, &mut entries);
        assert_eq!(read_result, Ok(file_id + 1));
        assert_eq!(entries.len(), file_id + 1);
        let mut listed: Vec<String> = entries.into_iter().map(|entry| entry.name).collect();
        listed.sort();
        for i in 0..listed.len() {
            assert_eq!(listed[i], file_names[i]);
        }
    }

    let mut entries: Vec<Dirent> = Vec::new();
    let _ = root.readdir_at(&mut fs, file_names.len() / 3, &mut entries);
    assert_eq!(entries.len(), file_names.len() - file_names.len() / 3);
}

#[test]
fn test_unlink_single() {
    let mut fs = load_exfat();
    let root = fs.root_inode();
    let file_name = "a.txt";
    let a_inode = create_file(&mut fs, root, file_name);
    let _ = a_inode.write_at(&mut fs, 8192, &vec![0, 1, 2, 3, 4]);

    assert_eq!(root.unlink(&mut fs, file_name), Ok(()));
    assert!(names(&mut fs, root).is_empty());

    assert_eq!(root.unlink(&mut fs, "."), Err(Errno::EISDIR));
    assert_eq!(root.unlink(&mut fs, ".."), Err(Errno::EISDIR));

    let folder_name = "sub";
    create_folder(&mut fs, root, folder_name);
    assert_eq!(root.unlink(&mut fs, folder_name), Err(Errno::EISDIR));

    let long_file_name = "x".repeat(MAX_NAME_LENGTH);
    create_file(&mut fs, root, &long_file_name);
    assert_eq!(root.unlink(&mut fs, &long_file_name), Ok(()));
}

#[test]
fn test_unlink_multiple() {
    let file_num: u32 = 30;
    let mut file_names: Vec<String> = (0..file_num).map(|x| x.to_string()).collect();
    file_names.sort();

    let mut fs = load_exfat();
    let cluster_size = fs.cluster_size();
    let root = fs.root_inode();
    let mut free_clusters_before_create: Vec<u32> = Vec::new();
    for (file_id, file_name) in file_names.iter().enumerate() {
        free_clusters_before_create.push(fs.free_clusters());
        let inode = create_file(&mut fs, root, file_name);
        if fs.free_clusters() > file_id as u32 {
            let _ = inode.write_at(&mut fs, file_id * cluster_size, &vec![0, 1, 2, 3, 4]);
        }
    }

    let mut reverse_names = file_names.clone();
    reverse_names.reverse();
    for (file_id, file_name) in reverse_names.iter().enumerate() {
        let id = file_num as usize - 1 - file_id;
        assert_eq!(root.unlink(&mut fs, file_name), Ok(()));
        assert_eq!(fs.free_clusters(), free_clusters_before_create[id]);
        let listed = sorted_names(&mut fs, root);
        assert_eq!(listed.len(), id);
        for i in 0..listed.len() {
            assert_eq!(listed[i], file_names[i]);
        }
    }
}

#[test]
fn test_rmdir() {
    let mut fs = load_exfat();
    let root = fs.root_inode();
    let folder_name = "sub";
    create_folder(&mut fs, root, folder_name);
    assert_eq!(root.rmdir(&mut fs, folder_name), Ok(()));
    assert!(names(&mut fs, root).is_empty());

    assert_eq!(root.rmdir(&mut fs, "."), Err(Errno::EINVAL));
    assert_eq!(root.rmdir(&mut fs, ".."), Err(Errno::ENOTEMPTY));

    let file_name = "a.txt";
    create_file(&mut fs, root, file_name);
    assert_eq!(root.rmdir(&mut fs, file_name), Err(Errno::ENOTDIR));

    let parent_name = "parent";
    let child_name = "child.txt";
    let parent_inode = create_folder(&mut fs, root, parent_name);
    create_file(&mut fs, parent_inode, child_name);
    assert_eq!(root.rmdir(&mut fs, parent_name), Err(Errno::ENOTEMPTY));
    let _ = parent_inode.unlink(&mut fs, child_name);
    assert_eq!(root.rmdir(&mut fs, parent_name), Ok(()));

    let long_dir_name = "x".repeat(MAX_NAME_LENGTH);
    create_folder(&mut fs, root, &long_dir_name);
    assert_eq!(root.rmdir(&mut fs, &long_dir_name), Ok(()));
}

#[test]
fn test_rename_file() {
    let mut fs = load_exfat();
    let root = fs.root_inode();
    let file_name = "hi.txt";
    let a_inode = create_file(&mut fs, root, file_name);

    const BUF_SIZE: usize = 7 * PAGE_SIZE + 11;
    let buf: Vec<u8> = (0..BUF_SIZE).map(|i| (i % 107) as u8).collect();
    let _ = a_inode.write_at(&mut fs, 0, &buf);

    let new_name = "hello.txt";
    assert_eq!(root.rename(&mut fs, file_name, &root, new_name, NOW), Ok(()));
    assert_eq!(names(&mut fs, root), vec![new_name.to_string()]);

    let a_inode_new = root.lookup(&mut fs, new_name).unwrap();
    let mut read = vec![0u8; BUF_SIZE];
    assert_eq!(a_inode_new.read_at(&mut fs, 0, &mut read), Ok(BUF_SIZE));
    assert!(buf.eq(&read), "File mismatch after rename");

    const NEW_BUF_SIZE: usize = 9 * PAGE_SIZE + 23;
    let new_buf = vec![7u8; NEW_BUF_SIZE];
    assert_eq!(a_inode_new.write_at(&mut fs, 0, &new_buf), Ok(NEW_BUF_SIZE));
    let mut new_read = vec![0u8; NEW_BUF_SIZE];
    let _ = a_inode_new.read_at(&mut fs, 0, &mut new_read);
    assert!(new_buf.eq(&new_read), "New read and new write mismatch after rename");

    let sub_folder_name = "test";
    let sub_folder = create_folder(&mut fs, root, sub_folder_name);
    let sub_file_name = "a.txt";
    create_file(&mut fs, sub_folder, sub_file_name);
    assert_eq!(sub_folder.rename(&mut fs, sub_file_name, &root, sub_file_name, NOW), Ok(()));

    let sub_dirs = sorted_names(&mut fs, root);
    assert_eq!(sub_dirs.len(), 3);
    assert_eq!(sub_dirs[0], sub_file_name);
    assert_eq!(sub_dirs[1], new_name);
    assert_eq!(sub_dirs[2], sub_folder_name);

    assert_eq!(root.rename(&mut fs, new_name, &root, new_name, NOW), Ok(()));
    assert_eq!(
        root.rename(&mut fs, new_name, &root, sub_folder_name, NOW),
        Err(Errno::EISDIR)
    );
    assert_eq!(root.rename(&mut fs, new_name, &root, sub_file_name, NOW), Ok(()));

    let sub_dirs = sorted_names(&mut fs, root);
    assert_eq!(sub_dirs.len(), 2);
    assert_eq!(sub_dirs[0], sub_file_name);
    assert_eq!(sub_dirs[1], sub_folder_name);
}

#[test]
fn test_rename_dir() {
    let mut fs = load_exfat();
    let root = fs.root_inode();
    let old_folder_name = "old_folder";
    let old_folder = create_folder(&mut fs, root, old_folder_name);
    let child_file_name = "a.txt";
    create_file(&mut fs, old_folder, child_file_name);

    let new_folder_name = "new_folder";
    assert_eq!(root.rename(&mut fs, old_folder_name, &root, new_folder_name, NOW), Ok(()));
    assert_eq!(names(&mut fs, root), vec![new_folder_name.to_string()]);

    let new_folder = root.lookup(&mut fs, new_folder_name).unwrap();
    assert_eq!(names(&mut fs, new_folder), vec![child_file_name.to_string()]);

    let exist_folder_name = "exist_folder";
    let exist_folder = create_folder(&mut fs, root, exist_folder_name);
    create_file(&mut fs, exist_folder, child_file_name);

    let exist_file_name = "exist_file.txt";
    create_file(&mut fs, root, exist_file_name);

    assert_eq!(
        root.rename(&mut fs, new_folder_name, &root, exist_file_name, NOW),
        Err(Errno::ENOTDIR)
    );
    assert_eq!(
        root.rename(&mut fs, new_folder_name, &root, exist_folder_name, NOW),
        Err(Errno::ENOTEMPTY)
    );

    let _ = exist_folder.unlink(&mut fs, child_file_name);
    assert_eq!(root.rename(&mut fs, new_folder_name, &root, exist_folder_name, NOW), Ok(()));
}

#[test]
fn test_write_and_read_file_direct() {
    let mut fs = load_exfat();
    let root = fs.root_inode();
    let file = create_file(&mut fs, root, "test");

    const BUF_SIZE: usize = PAGE_SIZE * 7 + 3 * 512;
    let buf: Vec<u8> = (0..BUF_SIZE).map(|i| (i % 107) as u8).collect();
    assert_eq!(file.write_direct_at(&mut fs, 0, &buf), Ok(BUF_SIZE));

    let mut read = vec![0u8; BUF_SIZE];
    assert_eq!(file.read_direct_at(&mut fs, 0, &mut read), Ok(BUF_SIZE));
    assert!(buf.eq(&read), "File mismatch");
}

#[test]
fn test_write_and_read_file() {
    let mut fs = load_exfat();
    let root = fs.root_inode();
    let file = create_file(&mut fs, root, "test");

    const BUF_SIZE: usize = PAGE_SIZE * 11 + 2023;
    let buf: Vec<u8> = (0..BUF_SIZE).map(|i| (i % 107) as u8).collect();
    assert_eq!(file.write_at(&mut fs, 0, &buf), Ok(BUF_SIZE));

    let mut read = vec![0u8; BUF_SIZE];
    assert_eq!(file.read_at(&mut fs, 0, &mut read), Ok(BUF_SIZE));
    assert!(buf.eq(&read), "File mismatch");
}

#[test]
fn test_interleaved_write() {
    let mut fs = load_exfat();
    let root = fs.root_inode();
    let a = create_file(&mut fs, root, "a");
    let b = create_file(&mut fs, root, "b");

    const BUF_SIZE: usize = PAGE_SIZE * 11 + 2023;
    let buf_a: Vec<u8> = (0..BUF_SIZE).map(|i| (i % 107) as u8).collect();
    let buf_b: Vec<u8> = (0..BUF_SIZE).map(|i| (i % 109) as u8).collect();

    let steps = 7;
    let write_len = (BUF_SIZE + steps - 1) / steps;
    for i in 0..steps {
        let start = i * write_len;
        let end = BUF_SIZE.min(start + write_len);
        a.write_at(&mut fs, start, &buf_a[start..end].to_vec()).unwrap();
        b.write_at(&mut fs, start, &buf_b[start..end].to_vec()).unwrap();
    }

    let mut read = vec![0u8; BUF_SIZE];
    a.read_at(&mut fs, 0, &mut read).unwrap();
    assert!(buf_a.eq(&read), "File a mismatch");
    b.read_at(&mut fs, 0, &mut read).unwrap();
    assert!(buf_b.eq(&read), "File b mismatch");
}

#[test]
fn test_bitmap_modify_bit() {
    let mut fs = load_exfat();
    let bitmap = fs.bitmap();
    let total_bits_len = 1000;
    let initial_free_clusters = bitmap.free_clusters();

    let range = bitmap
        .bitmap()
        .find_next_free_cluster_range(EXFAT_RESERVED_CLUSTERS, total_bits_len)
        .unwrap();
    let range_start_cluster = range.start;
    let p = 107;
    for i in 0..total_bits_len {
        let idx = range_start_cluster + (i * p) % total_bits_len;
        assert_eq!(bitmap.bitmap().is_cluster_free(idx), Ok(true));
        assert_eq!(bitmap.set_bitmap_used(idx, true), Ok(()));
        assert_eq!(bitmap.free_clusters(), initial_free_clusters - 1);
        assert_eq!(bitmap.bitmap().is_cluster_free(idx), Ok(false));
        assert_eq!(bitmap.set_bitmap_unused(idx, true), Ok(()));
        assert_eq!(bitmap.free_clusters(), initial_free_clusters);
        assert_eq!(bitmap.bitmap().is_cluster_free(idx), Ok(true));
    }
}

#[test]
fn test_bitmap_modify_chunk() {
    let mut fs = load_exfat();
    let bitmap = fs.bitmap();
    let total_bits_len = 1000;
    let initial_free_clusters = bitmap.free_clusters();

    let range_start_idx = bitmap
        .bitmap()
        .find_next_free_cluster_range(EXFAT_RESERVED_CLUSTERS, total_bits_len)
        .unwrap()
        .start;
    let mut chunk_size = 1;
    let mut start_idx: u32 = range_start_idx;
    let mut end_idx = range_start_idx + 1;
    while end_idx <= range_start_idx + total_bits_len {
        assert_eq!(bitmap.set_bitmap_range_used(start_idx..end_idx, true), Ok(()));
        assert_eq!(bitmap.free_clusters(), initial_free_clusters - chunk_size);
        for idx in start_idx..end_idx {
            assert_eq!(bitmap.bitmap().is_cluster_free(idx), Ok(false));
        }
        assert_eq!(bitmap.set_bitmap_range_unused(start_idx..end_idx, true), Ok(()));
        assert_eq!(bitmap.free_clusters(), initial_free_clusters);
        assert_eq!(bitmap.bitmap().is_cluster_range_free(start_idx..end_idx), Ok(true));

        chunk_size += 1;
        start_idx = end_idx;
        end_idx = start_idx + chunk_size;
    }
}

#[test]
fn test_bitmap_find() {
    let mut fs = load_exfat();
    let bitmap = fs.bitmap();
    let total_bits_len = 1000;

    let range_start_idx = bitmap
        .bitmap()
        .find_next_free_cluster_range(EXFAT_RESERVED_CLUSTERS, total_bits_len)
        .unwrap()
        .start;
    let mut chunk_size = 1;
    let mut start_idx;
    let mut end_idx = range_start_idx + 1;
    // 010010001000010000010000001...
    // chunk_size = k, relative_start_idx =(k-1)*(k+2)/2
    while end_idx <= range_start_idx + total_bits_len {
        let _ = bitmap.set_bitmap_used(end_idx, true);
        chunk_size += 1;
        start_idx = end_idx + 1;
        end_idx = start_idx + chunk_size;
    }

    for k in 1..chunk_size {
        let found = bitmap.bitmap().find_next_free_cluster_range(range_start_idx, k).unwrap();
        assert_eq!(found.start, (k - 1) * (k + 2) / 2 + range_start_idx);
        assert_eq!(found.end, (k * k + 3 * k - 2) / 2 + range_start_idx);
    }

    for k in 1..chunk_size {
        let found = bitmap.bitmap().find_next_free_cluster_range_fast(range_start_idx, k).unwrap();
        assert_eq!(found.start, (k - 1) * (k + 2) / 2 + range_start_idx);
        assert_eq!(found.end, (k * k + 3 * k - 2) / 2 + range_start_idx);
    }
}

#[test]
fn test_resize_single() {
    let mut fs = load_exfat();
    let root = fs.root_inode();
    let f = create_file(&mut fs, root, "xxx");
    let cluster_size = fs.cluster_size();
    let initial_free_clusters = fs.free_clusters();

    let max_clusters = 1000.min(initial_free_clusters);
    let mut alloc_clusters: u32 = 0;
    while alloc_clusters < max_clusters {
        alloc_clusters += 1;
        let _ = f.resize(&mut fs, alloc_clusters as usize * cluster_size);
        assert_eq!(fs.free_clusters(), initial_free_clusters - alloc_clusters);
    }

    while alloc_clusters > 0 {
        alloc_clusters -= 1;
        let _ = f.resize(&mut fs, alloc_clusters as usize * cluster_size);
        assert_eq!(fs.free_clusters(), initial_free_clusters - alloc_clusters);
    }

    alloc_clusters = 1;
    let mut step = 1;
    while alloc_clusters <= max_clusters {
        let _ = f.resize(&mut fs, alloc_clusters as usize * cluster_size);
        assert_eq!(fs.free_clusters(), initial_free_clusters - alloc_clusters);
        step += 1;
        alloc_clusters += step;
    }

    while alloc_clusters > 0 {
        alloc_clusters -= step;
        step -= 1;
        let _ = f.resize(&mut fs, alloc_clusters as usize * cluster_size);
        assert_eq!(fs.free_clusters(), initial_free_clusters - alloc_clusters);
    }
    assert_eq!(alloc_clusters, 0);

    // A file larger than the remaining space fails without changing the remaining space.
    assert_eq!(
        f.resize(&mut fs, initial_free_clusters as usize * cluster_size + 1),
        Err(Errno::ENOSPC)
    );
    assert_eq!(fs.free_clusters(), initial_free_clusters);

    // A file of exactly the remaining space succeeds.
    assert_eq!(f.resize(&mut fs, initial_free_clusters as usize * cluster_size), Ok(()));
    assert_eq!(fs.free_clusters(), 0);

    assert_eq!(f.resize(&mut fs, 0), Ok(()));
    assert_eq!(fs.free_clusters(), initial_free_clusters);
}

#[test]
fn test_resize_multiple() {
    let mut fs = load_exfat();
    let cluster_size = fs.cluster_size();
    let root = fs.root_inode();
    let file_num: u32 = 45;
    let mut file_names: Vec<String> = (0..file_num).map(|x| x.to_string()).collect();
    file_names.sort();
    let mut file_inodes: Vec<ExfatInode> = Vec::new();
    for file_name in file_names.iter() {
        file_inodes.push(create_file(&mut fs, root, file_name));
    }

    let initial_free_clusters = fs.free_clusters();
    let max_clusters = 10000.min(initial_free_clusters);
    let mut step: u32 = 1;
    let mut cur_clusters_per_file: u32 = 0;
    while file_num * (cur_clusters_per_file + step) <= max_clusters {
        for (file_id, inode) in file_inodes.iter().enumerate() {
            let _ = inode.resize(&mut fs, (cur_clusters_per_file + step) as usize * cluster_size);
            assert_eq!(
                fs.free_clusters(),
                initial_free_clusters
                    - cur_clusters_per_file * file_num
                    - (file_id as u32 + 1) * step
            );
        }
        cur_clusters_per_file += step;
        step += 1;
    }
}

#[test]
fn test_resize_write() {
    // The file grows to a third of a gigabyte.
    let mut fs = open(image_with(1 << 20, 400)).unwrap();
    let root = fs.root_inode();
    let inode = create_file(&mut fs, root, "xxx");
    const MAX_PAGE_PER_FILE: usize = 20;

    let random = noise(PAGE_SIZE, 7);
    let mut buf: Vec<u8> = Vec::new();
    let mut pg_num = 1;
    while pg_num <= MAX_PAGE_PER_FILE {
        let size = pg_num * PAGE_SIZE;
        let _ = inode.resize(&mut fs, size);

        while buf.len() < size * PAGE_SIZE {
            buf.extend_from_slice(&random);
        }
        assert_eq!(inode.write_at(&mut fs, 0, &buf), Ok(buf.len()));
        pg_num += 1;
    }

    pg_num = MAX_PAGE_PER_FILE;
    while pg_num > 0 {
        let size = (pg_num - 1) * PAGE_SIZE;
        let _ = inode.resize(&mut fs, size);

        buf.resize(size * PAGE_SIZE, 0);
        assert_eq!(inode.write_at(&mut fs, 0, &buf), Ok(buf.len()));
        pg_num -= 1;
    }
}

/// Bytes that look random.
fn noise(n: usize, seed: u64) -> Vec<u8> {
    let mut state = seed;
    (0..n)
        .map(|_| {
            state = state.wrapping_mul(6364136223846793005).wrapping_add(1442695040888963407);
            (state >> 33) as u8
        })
        .collect()
}

/// Does things at random, and holds what comes of them against the model.
fn run_random_sequence(mut fs: ExfatFS, seed: u64) {
    let root = fs.root_inode();
    let mut model = new_fs_in_memory(root);
    let mut random = RandomSource::new(noise(16_000_000, seed));

    let max_ops: u32 = 1000;
    for idx in 0..max_ops {
        let (at, op) = generate_random_operation(&model, 0, idx, &mut random);
        let text = format!("{:?}", op);
        let agrees = DentryInMemory::execute_and_test(
            &mut model,
            at,
            &mut fs,
            op,
            &mut random,
            NOW,
        );
        assert!(agrees, "step {}: {}", idx, text);
    }
    assert!(model.count() > 50);

    // The clusters that are free are those that the disk tells.
    let disk = fs.block_device();
    let again = open(disk.read_at(0, disk.size()).unwrap()).unwrap();
    assert_eq!(again.free_clusters(), fs.free_clusters());
}

#[test]
fn test_random_sequence() {
    run_random_sequence(load_exfat(), 2024);
}

#[test]
fn random_sequences_agree_on_large_clusters() {
    run_random_sequence(open(image_with(32768, 1500)).unwrap(), 2025);
}
