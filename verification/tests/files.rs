//! Files and directories: what was promised of them.

use exfat_core::errno::Errno;
use exfat_core::exfat::dentry::DosTimestamp;
use exfat_core::exfat::disk::{Disk, ExfatMemoryDisk};
use exfat_core::exfat::fat::{FatTrait, FatValue};
use exfat_core::exfat::fs::attr::IoEvents;
use exfat_core::exfat::fs::dir::Dirent;
use exfat_core::exfat::fs::{ExfatFS, ExfatInode};
use exfat_core::exfat::inode::{InodeMode, InodeType};
use exfat_core::exfat::mount::ExfatMountOptions;

const NOW: DosTimestamp = DosTimestamp {
    time: 0x6c5a,
    date: 0x57a3,
    increament_10ms: 17,
    utc_offset: 0x80,
};

const LATER: DosTimestamp = DosTimestamp {
    time: 0x7000,
    date: 0x57a4,
    increament_10ms: 0,
    utc_offset: 0x80,
};

/// A volume with clusters of the given size: the bitmap, the up-case table and the root
/// directory take a cluster each.
fn image_with(cluster_size: usize, clusters: u32) -> Vec<u8> {
    let data = 16 * 512;
    let mut image = vec![0u8; data + clusters as usize * cluster_size];
    image[3..11].copy_from_slice(b"EXFAT   ");
    image[80] = 8;
    image[84] = 4;
    image[88] = 16;
    image[92..96].copy_from_slice(&clusters.to_le_bytes());
    image[96] = 4;
    image[108] = 9;
    image[109] = (cluster_size / 512).trailing_zeros() as u8;
    image[110] = 1;
    image[510] = 0x55;
    image[511] = 0xAA;
    for cluster in 2..5 {
        let at = 8 * 512 + cluster * 4;
        image[at..at + 4].copy_from_slice(&0xFFFF_FFFFu32.to_le_bytes());
    }
    image[data] = 0b111;
    let root = data + 2 * cluster_size;
    image[root] = 0x81;
    image[root + 20] = 2;
    image[root + 24] = 38;
    image[root + 32] = 0x82;
    image[root + 52] = 3;
    image[root + 56] = 128;
    image
}

/// A volume with 300 clusters of a page.
fn image() -> Vec<u8> {
    image_with(4096, 300)
}

/// A file system with 60 clusters of eight pages.
fn load_large_clusters() -> ExfatFS {
    open(image_with(32768, 60)).unwrap()
}

/// A disk in memory.
fn disk(image: Vec<u8>) -> Disk {
    Disk { device: Box::new(ExfatMemoryDisk::new(image)) }
}

fn open(image: Vec<u8>) -> Result<ExfatFS, Errno> {
    ExfatFS::open(disk(image), ExfatMountOptions::default(), NOW)
}

fn load_exfat() -> ExfatFS {
    open(image()).unwrap()
}

/// What is on the disk now.
fn image_of(fs: &ExfatFS) -> Vec<u8> {
    let disk = fs.block_device();
    disk.read_at(0, disk.size()).unwrap()
}

fn file(fs: &mut ExfatFS, parent: ExfatInode, name: &str) -> ExfatInode {
    parent.create(fs, name, InodeType::File, InodeMode::all(), NOW).unwrap()
}

fn folder(fs: &mut ExfatFS, parent: ExfatInode, name: &str) -> ExfatInode {
    parent.create(fs, name, InodeType::Dir, InodeMode::all(), NOW).unwrap()
}

fn entries(fs: &mut ExfatFS, dir: ExfatInode) -> Vec<Dirent> {
    let mut entries: Vec<Dirent> = Vec::new();
    dir.readdir_at(fs, 0, &mut entries).unwrap();
    entries
}

fn names(fs: &mut ExfatFS, dir: ExfatInode) -> Vec<String> {
    entries(fs, dir).into_iter().map(|entry| entry.name).collect()
}

fn contents(fs: &mut ExfatFS, inode: ExfatInode, offset: usize, len: usize) -> Vec<u8> {
    let mut buf = vec![0xEE; len];
    let n = inode.read_at(fs, offset, &mut buf).unwrap();
    buf.truncate(n);
    buf
}

#[test]
fn damaged_volumes_are_not_mounted() {
    assert!(open(image()).is_ok());
    assert_eq!(open(vec![0; 100]).err(), Some(Errno::EINVAL));
    assert_eq!(open(vec![0; 4096]).err(), Some(Errno::EINVAL));
    let root = 16 * 512 + 2 * 4096;
    let mut no_bitmap = image();
    no_bitmap[root] = 0x03;
    assert_eq!(open(no_bitmap).err(), Some(Errno::EINVAL));
    let mut no_upcase = image();
    no_upcase[root + 32] = 0x02;
    assert_eq!(open(no_upcase).err(), Some(Errno::EINVAL));
    let mut no_end = image();
    no_end[8 * 512 + 16..8 * 512 + 20].copy_from_slice(&4u32.to_le_bytes());
    assert_eq!(open(no_end).err(), Some(Errno::EIO));
}

#[test]
fn a_mounted_volume_tells_of_itself() {
    let mut fs = load_exfat();
    assert_eq!(fs.sector_size(), 512);
    assert_eq!(fs.cluster_size(), 4096);
    assert_eq!(fs.free_clusters(), 297);
    assert_eq!(fs.super_block().num_clusters, 302);
    assert!(fs.is_valid_cluster(302));
    assert!(!fs.is_valid_cluster(303));
    assert!(!fs.is_valid_cluster(1));
    assert!(fs.is_cluster_range_valid(2..302));
    assert!(!fs.is_cluster_range_valid(2..303));
    assert_eq!(fs.cluster_to_off(4), 16 * 512 + 2 * 4096);
    let sb = fs.sb();
    assert_eq!((sb.magic, sb.bsize, sb.namelen), (0xAA55, 512, 255));
    assert_eq!(fs.flags().bits, 2);
    assert_eq!(fs.mount_option().fs_uid, 0);
    assert_eq!(fs.read_next_fat(4), Ok(FatValue::EndOfChain));
    assert_eq!(FatTrait::read_next_fat(&fs, 4), Ok(FatValue::EndOfChain));
    assert_eq!(FatTrait::write_next_fat(&mut fs, 100, FatValue::Bad), Ok(()));
    assert_eq!(FatTrait::read_next_fat(&fs, 100), Ok(FatValue::Bad));
    assert_eq!(FatTrait::read_next_fat(&fs, 0), Err(Errno::EIO));
    assert_eq!(fs.write_next_fat(100, FatValue::Free), Ok(()));
    assert_eq!(fs.read_next_fat(100), Ok(FatValue::Free));
}

#[test]
fn inodes_tell_of_themselves() {
    let mut fs = load_exfat();
    let root = fs.root_inode();
    assert_eq!(root.ino(&fs), 1);
    assert_eq!(root.type_(&fs), InodeType::Dir);
    assert_eq!(root.hash_index(&fs), 0);
    let f = file(&mut fs, root, "f");
    let d = folder(&mut fs, root, "d");
    assert_eq!(f.ino(&fs), 2);
    assert_eq!(f.len(&fs), 2);
    assert_eq!(f.hash_index(&fs), 0x4_0000_0040);
    assert_eq!(f.get_parent_inode(&fs), Some(root));
    assert_eq!(f.write_at(&mut fs, 0, &vec![7; 1000]), Ok(1000));
    let m = f.metadata(&fs);
    assert_eq!((m.dev, m.ino, m.size, m.blk_size, m.blocks), (0, 2, 1000, 512, 2));
    assert_eq!((m.nlinks, m.uid, m.gid, m.rdev), (1, 0, 0, 0));
    // The time of the last access is kept without hundredths.
    let accessed = DosTimestamp { increament_10ms: 0, ..NOW };
    assert_eq!((m.atime, m.mtime, m.ctime), (accessed, NOW, NOW));
    assert_eq!((m.type_, m.mode), (InodeType::File, InodeMode::all()));
    assert_eq!(f.mode(&fs), InodeMode::all());
    assert_eq!(root.metadata(&fs).nlinks, 4);
    assert_eq!(d.metadata(&fs).nlinks, 2);
    f.set_atime(&mut fs, LATER);
    assert_eq!((f.atime(&fs), f.mtime(&fs)), (LATER, NOW));
    f.set_mtime(&mut fs, LATER);
    assert_eq!(f.mtime(&fs), LATER);
    assert_eq!(f.page_cache(&fs).len(), 4096);
    assert_eq!(f.poll(IoEvents { bits: 0x5 }).bits, 0x5);
    assert_eq!(f.poll(IoEvents { bits: 0x12 }).bits, 0);
    assert!(f.is_dentry_cacheable());
    assert_eq!(root.mknod("x", InodeMode::all()), Err(Errno::EINVAL));
    assert_eq!(root.link(&f, "x"), Err(Errno::EINVAL));
    assert_eq!(f.read_link(), Err(Errno::EINVAL));
    assert_eq!(f.write_link("x"), Err(Errno::EINVAL));
}

#[test]
fn what_was_written_is_read() {
    let mut fs = load_exfat();
    let root = fs.root_inode();
    let f = file(&mut fs, root, "f");
    assert_eq!(contents(&mut fs, f, 0, 10), vec![]);
    assert_eq!(f.write_at(&mut fs, 3, &vec![1, 2, 3]), Ok(3));
    assert_eq!(contents(&mut fs, f, 0, 10), vec![0, 0, 0, 1, 2, 3]);
    assert_eq!(f.write_at(&mut fs, 4, &vec![9]), Ok(1));
    assert_eq!(contents(&mut fs, f, 2, 3), vec![0, 1, 9]);
    assert_eq!(contents(&mut fs, f, 5, 10), vec![3]);
    assert_eq!(contents(&mut fs, f, 6, 10), vec![]);
    assert_eq!(f.write_at(&mut fs, 0, &vec![]), Ok(0));
    assert_eq!(contents(&mut fs, f, 0, 10), vec![0, 0, 0, 1, 9, 3]);
}

#[test]
fn resizing_keeps_what_is_left() {
    let mut fs = load_exfat();
    let root = fs.root_inode();
    let f = file(&mut fs, root, "f");
    let data: Vec<u8> = (0..9000).map(|i| (i % 251) as u8).collect();
    assert_eq!(f.write_at(&mut fs, 0, &data), Ok(9000));
    assert_eq!(f.resize(&mut fs, 20000), Ok(()));
    assert_eq!(contents(&mut fs, f, 0, 9000), data);
    assert_eq!(f.resize(&mut fs, 5000), Ok(()));
    assert_eq!(contents(&mut fs, f, 0, 9000), data[..5000]);
    assert_eq!(fs.free_clusters(), 297 - 2);
    let free = fs.free_clusters() as usize;
    assert_eq!(f.resize(&mut fs, (free + 3) * 4096), Err(Errno::ENOSPC));
    assert_eq!(contents(&mut fs, f, 0, 9000), data[..5000]);
}

#[test]
fn names_are_those_that_were_given() {
    let mut fs = load_exfat();
    let root = fs.root_inode();
    let given = ["a", "with a space.txt", "\u{e9}t\u{e9}", "\u{4e2d}\u{6587}", "\u{1f600}.png"];
    for name in given {
        let inode = file(&mut fs, root, name);
        assert_eq!(root.lookup(&mut fs, name), Ok(inode));
    }
    assert_eq!(names(&mut fs, root), given);
    let all = entries(&mut fs, root);
    assert!(all.iter().all(|entry| entry.type_ == InodeType::File));
    assert_eq!(root.lookup(&mut fs, "A"), Err(Errno::ENOENT));
    assert_eq!(root.lookup(&mut fs, "."), Err(Errno::ENOENT));
}

#[test]
fn refused_requests_change_nothing() {
    let mut fs = load_exfat();
    let root = fs.root_inode();
    let f = file(&mut fs, root, "f");
    let d = folder(&mut fs, root, "d");
    file(&mut fs, d, "inner");
    let long = "x".repeat(256);
    let before = image_of(&fs);
    let free = fs.free_clusters();

    assert_eq!(
        f.create(&mut fs, "x", InodeType::File, InodeMode::all(), NOW),
        Err(Errno::ENOTDIR)
    );
    assert_eq!(
        root.create(&mut fs, "f", InodeType::File, InodeMode::all(), NOW),
        Err(Errno::EEXIST)
    );
    assert_eq!(f.lookup(&mut fs, "x"), Err(Errno::ENOTDIR));
    assert_eq!(root.lookup(&mut fs, &long), Err(Errno::ENAMETOOLONG));
    assert_eq!(root.lookup(&mut fs, "x"), Err(Errno::ENOENT));
    assert_eq!(f.unlink(&mut fs, "x"), Err(Errno::ENOTDIR));
    assert_eq!(root.unlink(&mut fs, "x"), Err(Errno::ENOENT));
    assert_eq!(root.unlink(&mut fs, "d"), Err(Errno::EISDIR));
    assert_eq!(root.unlink(&mut fs, "."), Err(Errno::EISDIR));
    assert_eq!(root.unlink(&mut fs, &long), Err(Errno::ENAMETOOLONG));
    assert_eq!(f.rmdir(&mut fs, "x"), Err(Errno::ENOTDIR));
    assert_eq!(root.rmdir(&mut fs, "x"), Err(Errno::ENOENT));
    assert_eq!(root.rmdir(&mut fs, "f"), Err(Errno::ENOTDIR));
    assert_eq!(root.rmdir(&mut fs, "d"), Err(Errno::ENOTEMPTY));
    assert_eq!(root.rmdir(&mut fs, "."), Err(Errno::EINVAL));
    assert_eq!(root.rmdir(&mut fs, ".."), Err(Errno::ENOTEMPTY));
    assert_eq!(root.rmdir(&mut fs, &long), Err(Errno::ENAMETOOLONG));
    assert_eq!(root.rename(&mut fs, "x", &root, "y", NOW), Err(Errno::ENOENT));
    assert_eq!(root.rename(&mut fs, ".", &root, "y", NOW), Err(Errno::EISDIR));
    assert_eq!(root.rename(&mut fs, "f", &root, "..", NOW), Err(Errno::EISDIR));
    assert_eq!(root.rename(&mut fs, "f", &root, "d", NOW), Err(Errno::EISDIR));
    assert_eq!(root.rename(&mut fs, "d", &root, "f", NOW), Err(Errno::ENOTDIR));
    assert_eq!(root.rename(&mut fs, "f", &root, &long, NOW), Err(Errno::ENAMETOOLONG));
    assert_eq!(root.rename(&mut fs, "f", &f, "y", NOW), Err(Errno::ENOTDIR));
    assert_eq!(root.rename(&mut fs, "f", &root, "f", NOW), Ok(()));
    assert_eq!(d.write_at(&mut fs, 0, &vec![1]), Err(Errno::EISDIR));
    assert_eq!(d.read_at(&mut fs, 0, &mut vec![0; 5]), Err(Errno::EISDIR));
    assert_eq!(d.write_direct_at(&mut fs, 0, &vec![1; 512]), Err(Errno::EISDIR));
    assert_eq!(d.read_direct_at(&mut fs, 0, &mut vec![0; 512]), Err(Errno::EISDIR));
    assert_eq!(f.write_direct_at(&mut fs, 0, &vec![1; 100]), Err(Errno::EINVAL));
    assert_eq!(f.read_direct_at(&mut fs, 100, &mut vec![0; 512]), Err(Errno::EINVAL));
    assert_eq!(f.readdir_at(&mut fs, 0, &mut Vec::new()), Ok(0));

    assert!(before == image_of(&fs));
    assert_eq!(fs.free_clusters(), free);
    assert_eq!(names(&mut fs, root), ["f", "d"]);
    assert_eq!(names(&mut fs, d), ["inner"]);
}

#[test]
fn removed_names_are_gone_and_their_clusters_free() {
    let mut fs = load_exfat();
    let root = fs.root_inode();
    let free = fs.free_clusters();
    for name in ["a", "b", "c"] {
        let inode = file(&mut fs, root, name);
        assert_eq!(inode.write_at(&mut fs, 0, &vec![1; 10000]), Ok(10000));
    }
    assert_eq!(fs.free_clusters(), free - 9);
    assert_eq!(root.unlink(&mut fs, "b"), Ok(()));
    assert_eq!(fs.free_clusters(), free - 6);
    assert_eq!(root.lookup(&mut fs, "b"), Err(Errno::ENOENT));
    assert_eq!(names(&mut fs, root), ["a", "c"]);
    // The slots of the name are used again.
    file(&mut fs, root, "d");
    assert_eq!(names(&mut fs, root), ["a", "d", "c"]);
    folder(&mut fs, root, "e");
    assert_eq!(root.rmdir(&mut fs, "e"), Ok(()));
    assert_eq!(names(&mut fs, root), ["a", "d", "c"]);
}

#[test]
fn a_directory_grows_with_its_names() {
    let mut fs = load_exfat();
    let root = fs.root_inode();
    let free = fs.free_clusters();
    let d = folder(&mut fs, root, "d");
    assert_eq!(fs.free_clusters(), free);
    // Each name takes three slots: 42 of them fill a cluster.
    for k in 0..42 {
        file(&mut fs, d, &k.to_string());
    }
    assert_eq!(fs.free_clusters(), free - 1);
    file(&mut fs, d, "42");
    assert_eq!(fs.free_clusters(), free - 2);
    assert_eq!(names(&mut fs, d).len(), 43);
    assert_eq!(d.metadata(&fs).nlinks, 45);
}

#[test]
fn a_full_volume_takes_no_more() {
    let mut fs = load_exfat();
    let root = fs.root_inode();
    let d = folder(&mut fs, root, "d");
    let f = file(&mut fs, root, "f");
    let all = fs.free_clusters() as usize * 4096;
    assert_eq!(f.resize(&mut fs, all), Ok(()));
    assert_eq!(fs.free_clusters(), 0);
    assert_eq!(
        d.create(&mut fs, "x", InodeType::File, InodeMode::all(), NOW),
        Err(Errno::ENOSPC)
    );
    let g = file(&mut fs, root, "g");
    assert_eq!(g.write_at(&mut fs, 0, &vec![1]), Err(Errno::ENOSPC));
    assert!(names(&mut fs, d).is_empty());
}

#[test]
fn renaming_moves_and_replaces() {
    let mut fs = load_exfat();
    let root = fs.root_inode();
    let d = folder(&mut fs, root, "d");
    let f = file(&mut fs, root, "f");
    let g = file(&mut fs, d, "g");
    assert_eq!(f.write_at(&mut fs, 0, &vec![1; 10]), Ok(10));
    assert_eq!(g.write_at(&mut fs, 0, &vec![2; 5000]), Ok(5000));
    let free = fs.free_clusters();

    assert_eq!(root.rename(&mut fs, "f", &d, "g", NOW), Ok(()));
    assert_eq!(fs.free_clusters(), free + 2);
    assert_eq!(names(&mut fs, root), ["d"]);
    assert_eq!(names(&mut fs, d), ["g"]);
    let moved = d.lookup(&mut fs, "g").unwrap();
    assert_eq!(moved.ino(&fs), f.ino(&fs));
    assert_eq!(contents(&mut fs, moved, 0, 100), vec![1; 10]);
    assert_eq!(root.metadata(&fs).nlinks, 3);
    assert_eq!(d.metadata(&fs).nlinks, 3);

    let e = folder(&mut fs, root, "e");
    assert_eq!(root.rename(&mut fs, "d", &e, "inner", NOW), Ok(()));
    assert_eq!(names(&mut fs, root), ["e"]);
    let inner = e.lookup(&mut fs, "inner").unwrap();
    assert_eq!(names(&mut fs, inner), ["g"]);
    assert_eq!(contents(&mut fs, moved, 0, 100), vec![1; 10]);
}

#[test]
fn direct_and_cached_access_agree() {
    let mut fs = load_exfat();
    let root = fs.root_inode();
    let f = file(&mut fs, root, "f");
    let data: Vec<u8> = (0..6 * 512).map(|i| (i % 253) as u8).collect();
    assert_eq!(f.write_direct_at(&mut fs, 512, &data), Ok(data.len()));
    assert_eq!(contents(&mut fs, f, 512, 4096), data);
    assert_eq!(contents(&mut fs, f, 0, 512), vec![0; 512]);

    assert_eq!(f.write_at(&mut fs, 600, &vec![9; 10]), Ok(10));
    let mut buf = vec![0; 1024];
    assert_eq!(f.read_direct_at(&mut fs, 512, &mut buf), Ok(1024));
    assert_eq!(buf[..88], data[..88]);
    assert_eq!(buf[88..98], [9; 10]);
    assert_eq!(buf[98..], data[98..1024]);

    // Only the whole sectors of what was written are read.
    assert_eq!(f.write_at(&mut fs, 7 * 512, &vec![5; 100]), Ok(100));
    let mut buf = vec![0; 4096];
    assert_eq!(f.read_direct_at(&mut fs, 6 * 512, &mut buf), Ok(512));
    assert_eq!(f.read_direct_at(&mut fs, 20 * 512, &mut buf), Ok(0));
}

#[test]
fn a_volume_is_found_again_as_it_was_left() {
    let mut fs = load_exfat();
    let root = fs.root_inode();
    let d = folder(&mut fs, root, "dir");
    let f = file(&mut fs, root, "file");
    let g = file(&mut fs, d, "inner");
    let data: Vec<u8> = (0..10 * 512).map(|i| (i % 199) as u8).collect();
    assert_eq!(f.write_direct_at(&mut fs, 0, &data), Ok(data.len()));
    assert_eq!(g.write_direct_at(&mut fs, 0, &vec![3; 512]), Ok(512));
    assert_eq!(fs.sync(), Ok(()));

    let mut again = open(image_of(&fs)).unwrap();
    let root = again.root_inode();
    assert_eq!(names(&mut again, root), ["dir", "file"]);
    let f = root.lookup(&mut again, "file").unwrap();
    assert_eq!(contents(&mut again, f, 0, 10000), data);
    let d = root.lookup(&mut again, "dir").unwrap();
    assert_eq!(d.type_(&again), InodeType::Dir);
    assert_eq!(names(&mut again, d), ["inner"]);
    let g = d.lookup(&mut again, "inner").unwrap();
    assert_eq!(contents(&mut again, g, 0, 10000), vec![3; 512]);
    assert_eq!(root.metadata(&again).nlinks, 4);
    // The clusters that were taken are still taken.
    assert_eq!(again.free_clusters(), fs.free_clusters());
    let h = file(&mut again, root, "more");
    assert_eq!(h.write_at(&mut again, 0, &vec![7; 20000]), Ok(20000));
    assert_eq!(contents(&mut again, f, 0, 10000), data);
    assert_eq!(contents(&mut again, g, 0, 10000), vec![3; 512]);
}

#[test]
fn files_that_cannot_be_read_are_found() {
    let mut fs = load_exfat();
    let root = fs.root_inode();
    let f = file(&mut fs, root, "f");
    let g = file(&mut fs, root, "g");
    assert_eq!(f.write_at(&mut fs, 0, &vec![1; 8192]), Ok(8192));
    assert_eq!(g.write_at(&mut fs, 0, &vec![2; 100]), Ok(100));
    assert_eq!(fs.sync(), Ok(()));

    // The first cluster of the file is the cluster 5, and nothing follows it any more.
    let mut image = image_of(&fs);
    let at = 8 * 512 + 5 * 4;
    assert_eq!(image[at..at + 4], 6u32.to_le_bytes());
    image[at..at + 4].copy_from_slice(&0xFFFF_FFFFu32.to_le_bytes());
    let mut again = open(image).unwrap();
    let root = again.root_inode();
    assert_eq!(names(&mut again, root), ["f", "g"]);
    let f = root.lookup(&mut again, "f").unwrap();
    let g = root.lookup(&mut again, "g").unwrap();
    assert_eq!(f.metadata(&again).size, 8192);
    assert_eq!(contents(&mut again, g, 0, 200), vec![2; 100]);
    assert_eq!(f.read_at(&mut again, 0, &mut vec![0; 10]), Err(Errno::EIO));
    assert_eq!(f.write_at(&mut again, 0, &vec![3; 10]), Err(Errno::EIO));
    // What is read on the disk needs no page in memory.
    let mut buf = vec![0; 512];
    assert_eq!(f.read_direct_at(&mut again, 0, &mut buf), Ok(512));
    assert_eq!(buf, vec![1; 512]);
    assert_eq!(root.unlink(&mut again, "g"), Ok(()));
}

#[test]
fn files_are_read_when_they_are_used() {
    let mut fs = load_exfat();
    let root = fs.root_inode();
    let f = file(&mut fs, root, "f");
    assert_eq!(f.write_direct_at(&mut fs, 0, &vec![1; 8192]), Ok(8192));
    assert_eq!(f.sync(&mut fs), Ok(()));
    // A file that was resized before it is read has what is left of it.
    let mut again = open(image_of(&fs)).unwrap();
    let root = again.root_inode();
    let f = root.lookup(&mut again, "f").unwrap();
    assert_eq!(f.resize(&mut again, 5000), Ok(()));
    assert_eq!(f.resize(&mut again, 9000), Ok(()));
    assert_eq!(f.metadata(&again).size, 5000);
    assert_eq!(contents(&mut again, f, 4000, 9000), vec![1; 1000]);
    assert_eq!(f.write_at(&mut again, 4990, &vec![2; 20]), Ok(20));
    assert_eq!(contents(&mut again, f, 4989, 100)[..], [&[1][..], &[2; 20][..]].concat());
}

#[test]
fn free_clusters_are_found_again() {
    let mut fs = load_large_clusters();
    let root = fs.root_inode();
    let free = fs.free_clusters();
    assert_eq!(free, 57);
    let f = file(&mut fs, root, "f");
    assert_eq!(f.write_at(&mut fs, 0, &vec![1; 100_000]), Ok(100_000));
    assert_eq!(fs.free_clusters(), free - 4);
    assert_eq!(open(image_of(&fs)).unwrap().free_clusters(), free - 4);
    assert_eq!(f.resize(&mut fs, 40_000), Ok(()));
    assert_eq!(open(image_of(&fs)).unwrap().free_clusters(), free - 2);
    assert_eq!(root.unlink(&mut fs, "f"), Ok(()));
    assert_eq!(open(image_of(&fs)).unwrap().free_clusters(), free);
}

#[test]
fn files_shrink_within_a_cluster() {
    let mut fs = load_large_clusters();
    let root = fs.root_inode();
    let f = file(&mut fs, root, "f");
    assert_eq!(f.write_at(&mut fs, 0, &vec![1; 20000]), Ok(20000));
    let free = fs.free_clusters();
    assert_eq!(f.resize(&mut fs, 100), Ok(()));
    assert_eq!(fs.free_clusters(), free);
    assert_eq!(f.metadata(&fs).size, 100);
    assert_eq!(contents(&mut fs, f, 0, 20000), vec![1; 100]);
    // Growing does not bring anything back.
    assert_eq!(f.resize(&mut fs, 20000), Ok(()));
    assert_eq!(f.metadata(&fs).size, 100);
    assert_eq!(contents(&mut fs, f, 0, 20000), vec![1; 100]);
}

#[test]
fn directories_fill_their_clusters() {
    let mut fs = load_large_clusters();
    let root = fs.root_inode();
    let d = folder(&mut fs, root, "d");
    let free = fs.free_clusters();
    // A cluster has room for 1024 entries, and a file takes three of them.
    for k in 0..341 {
        file(&mut fs, d, &format!("{}", k));
        assert_eq!(fs.free_clusters(), free - 1);
    }
    for k in 341..400 {
        file(&mut fs, d, &format!("{}", k));
        assert_eq!(fs.free_clusters(), free - 2);
    }
    assert_eq!(names(&mut fs, d).len(), 400);
    assert!(d.lookup(&mut fs, "399").is_ok());
}

#[test]
fn writing_back_writes_entries() {
    let mut fs = load_exfat();
    let root = fs.root_inode();
    let f = file(&mut fs, root, "f");
    assert_eq!(f.write_at(&mut fs, 0, &vec![1; 5000]), Ok(5000));
    f.set_mtime(&mut fs, LATER);
    assert_eq!(f.sync(&mut fs), Ok(()));
    let mut again = open(image_of(&fs)).unwrap();
    let root = again.root_inode();
    let f = root.lookup(&mut again, "f").unwrap();
    assert_eq!(f.metadata(&again).size, 5000);
    assert_eq!(f.mtime(&again), LATER);
    // Of the contents, the pages with the first bytes were written, as many as the number
    // of the inode.
    assert_eq!(contents(&mut again, f, 0, 4096), vec![1; 4096]);
    assert_eq!(contents(&mut again, f, 4096, 4096), vec![0; 904]);
}

#[test]
fn other_directories_stay_as_they_are() {
    let mut fs = load_exfat();
    let root = fs.root_inode();
    let a = folder(&mut fs, root, "a");
    let b = folder(&mut fs, root, "b");
    file(&mut fs, a, "kept");
    let gone = file(&mut fs, b, "gone");
    assert_eq!(gone.write_at(&mut fs, 0, &vec![1; 9000]), Ok(9000));
    assert_eq!(names(&mut fs, a), ["kept"]);
    folder(&mut fs, b, "dir");
    assert_eq!(b.unlink(&mut fs, "gone"), Ok(()));
    assert_eq!(b.rmdir(&mut fs, "dir"), Ok(()));
    assert_eq!(names(&mut fs, a), ["kept"]);
    assert!(names(&mut fs, b).is_empty());
    assert_eq!(names(&mut fs, root), ["a", "b"]);
}

#[test]
fn inodes_are_kept_by_their_places() {
    let mut fs = load_exfat();
    let root = fs.root_inode();
    let f = file(&mut fs, root, "f");
    let hash = f.hash_index(&fs);
    assert_eq!(fs.find_opened_inode(hash), Some(f));
    fs.evict_inode(hash);
    assert_eq!(fs.find_opened_inode(hash), None);
    // The name is still there, with a new inode.
    let again = root.lookup(&mut fs, "f").unwrap();
    assert_ne!(again, f);
    assert_eq!(fs.find_opened_inode(hash), Some(again));
    assert_eq!(fs.insert_inode(f), Some(again));
    assert_eq!(fs.find_opened_inode(hash), Some(f));
}

#[test]
fn looking_for_what_is_not_there_opens_a_directory() {
    let mut fs = load_exfat();
    let root = fs.root_inode();
    let dir = folder(&mut fs, root, "dir");
    let f = file(&mut fs, root, "f");
    file(&mut fs, dir, "inner");
    f.write_at(&mut fs, 0, &b"some bytes".to_vec()).unwrap();
    fs.sync().unwrap();

    // A name that is not there is not found, and then the others are.
    let mut again = open(image_of(&fs)).unwrap();
    let root = again.root_inode();
    assert_eq!(root.lookup(&mut again, "none").err(), Some(Errno::ENOENT));
    assert_eq!(names(&mut again, root), vec!["dir", "f"]);

    // Everything can be done with a directory of which nothing was read.
    let mut again = open(image_of(&fs)).unwrap();
    let root = again.root_inode();
    let refused = root.create(&mut again, "f", InodeType::File, InodeMode::all(), NOW);
    assert_eq!(refused.err(), Some(Errno::EEXIST));
    let mut again = open(image_of(&fs)).unwrap();
    let root = again.root_inode();
    file(&mut again, root, "g");
    assert_eq!(names(&mut again, root), vec!["dir", "f", "g"]);
    let mut again = open(image_of(&fs)).unwrap();
    let root = again.root_inode();
    assert_eq!(root.unlink(&mut again, "f"), Ok(()));
    assert_eq!(names(&mut again, root), vec!["dir"]);
    let mut again = open(image_of(&fs)).unwrap();
    let root = again.root_inode();
    assert_eq!(root.rename(&mut again, "f", &root, "h", NOW), Ok(()));
    assert_eq!(root.lookup(&mut again, "f").err(), Some(Errno::ENOENT));
    assert!(root.lookup(&mut again, "h").is_ok());

    // Between two directories of which only the one was looked for.
    let mut again = open(image_of(&fs)).unwrap();
    let root = again.root_inode();
    let dir = root.lookup(&mut again, "dir").unwrap();
    assert_eq!(root.rename(&mut again, "f", &dir, "inner", NOW), Ok(()));
    assert_eq!(names(&mut again, root), vec!["dir"]);
    assert_eq!(names(&mut again, dir), vec!["inner"]);

    // Listing a part of a directory of which nothing was read.
    let mut again = open(image_of(&fs)).unwrap();
    let root = again.root_inode();
    let mut rest: Vec<Dirent> = Vec::new();
    assert_eq!(root.readdir_at(&mut again, 1, &mut rest), Ok(1));
    assert_eq!(rest[0].name, "f");
}

#[test]
fn files_that_were_not_read_keep_their_bytes() {
    let mut fs = load_exfat();
    let root = fs.root_inode();
    let f = file(&mut fs, root, "f");
    let bytes: Vec<u8> = (0..12288u32).map(|k| (k / 7) as u8).collect();
    f.write_at(&mut fs, 0, &vec![0u8; 12288]).unwrap();
    f.write_direct_at(&mut fs, 0, &bytes).unwrap();
    f.sync(&mut fs).unwrap();

    for (size, left) in [(20000usize, 12288usize), (12288, 12288), (5000, 5000), (0, 0)] {
        let mut again = open(image_of(&fs)).unwrap();
        let root = again.root_inode();
        let f = root.lookup(&mut again, "f").unwrap();
        f.resize(&mut again, size).unwrap();
        assert_eq!(contents(&mut again, f, 0, 20000), bytes[..left].to_vec());
    }

    // Bytes outside of a write stay.
    let mut again = open(image_of(&fs)).unwrap();
    let root = again.root_inode();
    let f = root.lookup(&mut again, "f").unwrap();
    f.write_at(&mut again, 5000, &b"new".to_vec()).unwrap();
    let mut expected = bytes.clone();
    expected[5000..5003].copy_from_slice(b"new");
    assert_eq!(contents(&mut again, f, 0, 12288), expected);
}
