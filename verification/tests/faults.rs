//! Disks on which accesses fail.

use std::sync::atomic::{AtomicUsize, Ordering};
use std::sync::Arc;

use exfat_core::errno::Errno;
use exfat_core::exfat::dentry::DosTimestamp;
use exfat_core::exfat::disk::{BlockDevice, Disk, ExfatMemoryDisk};
use exfat_core::exfat::fat::{FatTrait, FatValue};
use exfat_core::exfat::fs::{ExfatFS, ExfatInode};
use exfat_core::exfat::inode::{InodeMode, InodeType};
use exfat_core::exfat::mount::ExfatMountOptions;

const NOW: DosTimestamp = DosTimestamp {
    time: 0x6c5a,
    date: 0x57a3,
    increament_10ms: 17,
    utc_offset: 0x80,
};

const CLUSTER: usize = 4096;
const DATA: usize = 16 * 512;

/// A volume with 100 clusters of a page.
fn image() -> Vec<u8> {
    let mut image = vec![0u8; DATA + 100 * CLUSTER];
    image[3..11].copy_from_slice(b"EXFAT   ");
    image[80] = 8;
    image[84] = 4;
    image[88] = 16;
    image[92..96].copy_from_slice(&100u32.to_le_bytes());
    image[96] = 4;
    image[108] = 9;
    image[109] = 3;
    image[110] = 1;
    image[510] = 0x55;
    image[511] = 0xAA;
    for cluster in 2..5 {
        let at = 8 * 512 + cluster * 4;
        image[at..at + 4].copy_from_slice(&0xFFFF_FFFFu32.to_le_bytes());
    }
    image[DATA] = 0b111;
    let root = DATA + 2 * CLUSTER;
    image[root] = 0x81;
    image[root + 20] = 2;
    image[root + 24] = 13;
    image[root + 32] = 0x82;
    image[root + 52] = 3;
    image[root + 56] = 128;
    image
}

/// Where a disk is damaged: accesses to these bytes fail.
#[derive(Clone)]
struct Damage {
    reads: Arc<(AtomicUsize, AtomicUsize)>,
    writes: Arc<(AtomicUsize, AtomicUsize)>,
}

impl Damage {
    fn none() -> Self {
        Damage { reads: Arc::default(), writes: Arc::default() }
    }

    fn set(range: &(AtomicUsize, AtomicUsize), from: usize, to: usize) {
        range.0.store(from, Ordering::Relaxed);
        range.1.store(to, Ordering::Relaxed);
    }

    fn hits(range: &(AtomicUsize, AtomicUsize), at: usize, len: usize) -> bool {
        at < range.1.load(Ordering::Relaxed) && range.0.load(Ordering::Relaxed) < at + len
    }
}

/// A disk that can be damaged.
struct Damaged {
    disk: ExfatMemoryDisk,
    damage: Damage,
}

impl BlockDevice for Damaged {
    fn size(&self) -> usize {
        self.disk.size()
    }

    fn read_at(&self, position: u64, len: usize) -> Result<Vec<u8>, Errno> {
        if Damage::hits(&self.damage.reads, position as usize, len) {
            return Err(Errno::EIO);
        }
        self.disk.read_at(position, len)
    }

    fn write_at(&mut self, position: u64, bytes: &Vec<u8>) -> Result<(), Errno> {
        if Damage::hits(&self.damage.writes, position as usize, bytes.len()) {
            return Err(Errno::EIO);
        }
        self.disk.write_at(position, bytes)
    }
}

fn open_with(image: Vec<u8>, damage: &Damage) -> Result<ExfatFS, Errno> {
    let device = Damaged { disk: ExfatMemoryDisk::new(image), damage: damage.clone() };
    ExfatFS::open(Disk { device: Box::new(device) }, ExfatMountOptions::default(), NOW)
}

fn file(fs: &mut ExfatFS, name: &str) -> ExfatInode {
    let root = fs.root_inode();
    root.create(fs, name, InodeType::File, InodeMode::all(), NOW).unwrap()
}

/// Where a cluster begins on the disk.
fn place(cluster: usize) -> usize {
    DATA + (cluster - 2) * CLUSTER
}

#[test]
fn a_disk_without_a_boot_sector_is_not_opened() {
    let damage = Damage::none();
    Damage::set(&damage.reads, 0, 1);
    assert!(matches!(open_with(image(), &damage), Err(Errno::EIO)));
    Damage::set(&damage.reads, 0, 0);
    assert!(open_with(image(), &damage).is_ok());
}

#[test]
fn unreadable_pages_are_told_of() {
    let damage = Damage::none();
    let mut fs = open_with(image(), &damage).unwrap();
    let f = file(&mut fs, "f");
    let bytes: Vec<u8> = (0..10000u32).map(|k| k as u8).collect();
    f.write_at(&mut fs, 0, &bytes).unwrap();
    f.resize(&mut fs, 12288).unwrap();
    f.write_direct_at(&mut fs, 0, &vec![7u8; 8192]).unwrap();
    f.sync(&mut fs).unwrap();
    let disk = fs.block_device();
    let left = disk.read_at(0, disk.size()).unwrap();

    let mut fs = open_with(left, &damage).unwrap();
    let root = fs.root_inode();
    let f = root.lookup(&mut fs, "f").unwrap();
    let size = f.metadata(&fs).size;
    assert!(size >= 8192);
    // The second page of the file cannot be read.
    Damage::set(&damage.reads, place(6), place(7));
    let mut buf = vec![0u8; 100];
    assert_eq!(f.read_at(&mut fs, 0, &mut buf), Err(Errno::EIO));
    assert_eq!(f.write_at(&mut fs, 0, &vec![1u8; 10]), Err(Errno::EIO));
    assert_eq!(f.metadata(&fs).size, size);
    // When it can, nothing is lost.
    Damage::set(&damage.reads, 0, 0);
    assert_eq!(f.read_at(&mut fs, 0, &mut buf), Ok(100));
    assert_eq!(buf, vec![7u8; 100]);
}

#[test]
fn unwritable_disks_are_told_of() {
    let damage = Damage::none();
    let mut fs = open_with(image(), &damage).unwrap();
    let f = file(&mut fs, "f");
    let before = fs.read_next_fat(9).unwrap();
    Damage::set(&damage.writes, 8 * 512, 16 * 512);
    assert_eq!(fs.write_next_fat(9, FatValue::Next(10)), Err(Errno::EIO));
    assert_eq!(fs.read_next_fat(9), Ok(before));
    assert_eq!(f.resize(&mut fs, 8192), Err(Errno::EIO));
    Damage::set(&damage.writes, 0, 0);
    assert_eq!(fs.write_next_fat(9, FatValue::Next(10)), Ok(()));
    assert_eq!(fs.read_next_fat(9), Ok(FatValue::Next(10)));
    assert_eq!(f.resize(&mut fs, 8192), Ok(()));
}
