//! The model that a file system is held against.

use exfat_core::exfat::constants::PAGE_SIZE;
use exfat_core::exfat::dentry::DosTimestamp;
use exfat_core::exfat::disk::{Disk, ExfatMemoryDisk};
use exfat_core::exfat::fs::ExfatFS;
use exfat_core::exfat::inode::InodeType;
use exfat_core::exfat::mount::ExfatMountOptions;
use exfat_core::random_test::generate::{generate_random_operation, random_select_from_dir_tree};
use exfat_core::random_test::names::{number_name, remove_name, same_names, sort_names};
use exfat_core::random_test::random::RandomSource;
use exfat_core::random_test::{new_fs_in_memory, DentryInMemory, FsInMemory, Operation};

const NOW: DosTimestamp = DosTimestamp {
    time: 0x6c5a,
    date: 0x57a3,
    increament_10ms: 17,
    utc_offset: 0x80,
};

/// A volume with 300 clusters of 4096 bytes: the bitmap, the up-case table and the root
/// directory take a cluster each.
/// A disk in memory.
fn disk(image: Vec<u8>) -> Disk {
    Disk { device: Box::new(ExfatMemoryDisk::new(image)) }
}

fn load_exfat() -> ExfatFS {
    let data = 16 * 512;
    let mut image = vec![0u8; data + 300 * 4096];
    image[3..11].copy_from_slice(b"EXFAT   ");
    image[80] = 8;
    image[84] = 4;
    image[88] = 16;
    image[92..96].copy_from_slice(&300u32.to_le_bytes());
    image[96] = 4;
    image[108] = 9;
    image[109] = 3;
    image[110] = 1;
    image[510] = 0x55;
    image[511] = 0xAA;
    for cluster in 2..5 {
        let at = 8 * 512 + cluster * 4;
        image[at..at + 4].copy_from_slice(&0xFFFF_FFFFu32.to_le_bytes());
    }
    image[data] = 0b111;
    let root = data + 2 * 4096;
    image[root] = 0x81;
    image[root + 20] = 2;
    image[root + 24] = 38;
    image[root + 32] = 0x82;
    image[root + 52] = 3;
    image[root + 56] = 128;
    ExfatFS::open(disk(image), ExfatMountOptions::default(), NOW).unwrap()
}

fn texts(names: &[&str]) -> Vec<String> {
    names.iter().map(|name| name.to_string()).collect()
}

#[test]
fn random_numbers_are_scaled_bytes() {
    let mut random = RandomSource::new(vec![0, 127, 128, 254, 255, 100, 7]);
    assert_eq!(random.get_random_in(1), 0);
    assert_eq!(random.get_random_in(1), 0);
    assert_eq!(random.get_random_in(1), 1);
    assert_eq!(random.get_random_in(9), 9);
    assert_eq!(random.get_random_in(9), 9);
    assert_eq!(random.get_random_in(6), 2);
    assert_eq!(random.getrandom(3), vec![7, 0, 0]);
    assert_eq!(random.get_random_in(1000), 0);
}

#[test]
fn random_places_lie_in_their_range() {
    let mut random = RandomSource::new(vec![51, 255, 255, 255]);
    assert_eq!(random.generate_random_offset_len(100), (20, 80));
    assert_eq!(random.generate_random_offset_len(100), (99, 1));
}

#[test]
fn numbers_become_names() {
    assert_eq!(number_name(0), "0");
    assert_eq!(number_name(9), "9");
    assert_eq!(number_name(10), "10");
    assert_eq!(number_name(4294967295), "4294967295");
}

#[test]
fn names_are_sorted_compared_and_removed() {
    let mut names = texts(&["b", "a", "aa", "b"]);
    assert_eq!(sort_names(&names), texts(&["a", "aa", "b", "b"]));
    remove_name(&mut names, "b");
    assert_eq!(names, texts(&["a", "aa", "b"]));
    remove_name(&mut names, "c");
    assert!(same_names(&names, &texts(&["a", "aa", "b"])));
    assert!(!same_names(&names, &texts(&["a", "b", "aa"])));
    assert!(!same_names(&names, &texts(&["a", "aa"])));
}

fn done(
    model: &mut FsInMemory,
    at: usize,
    fs: &mut ExfatFS,
    op: Operation,
    bytes: Vec<u8>,
) -> bool {
    DentryInMemory::execute_and_test(model, at, fs, op, &mut RandomSource::new(bytes), NOW)
}

#[test]
fn a_new_model_is_an_empty_root() {
    let fs = load_exfat();
    let model = new_fs_in_memory(fs.root_inode());
    assert_eq!(model.count(), 1);
    assert_eq!(model.dentry(0).sub_cnt(), 0);
    match model.dentry(0) {
        DentryInMemory::Dir(dir) => {
            assert_eq!(dir.name, "root");
            assert_eq!(dir.depth, 0);
            assert!(dir.sub_names.is_empty());
        }
        DentryInMemory::File(_) => panic!("the root is a directory"),
    }
}

#[test]
fn the_model_follows_what_is_done() {
    let mut fs = load_exfat();
    let root = fs.root_inode();
    let mut model = new_fs_in_memory(root);
    let none = Vec::new;

    assert!(done(&mut model, 0, &mut fs, Operation::Create("d".into(), InodeType::Dir), none()));
    assert!(done(&mut model, 0, &mut fs, Operation::Create("f".into(), InodeType::File), none()));
    assert!(done(&mut model, 0, &mut fs, Operation::Create("f".into(), InodeType::Dir), none()));
    assert_eq!(model.count(), 3);
    assert_eq!(model.dentry(0).sub_cnt(), 2);
    assert!(done(&mut model, 0, &mut fs, Operation::Lookup("f".into()), none()));
    assert!(done(&mut model, 0, &mut fs, Operation::Lookup("g".into()), none()));
    assert!(done(&mut model, 0, &mut fs, Operation::Readdir(), none()));

    assert!(done(&mut model, 2, &mut fs, Operation::Write(0, 5), vec![1, 2, 3, 4, 5]));
    assert!(done(&mut model, 2, &mut fs, Operation::Write(7, 1), vec![6, 7, 8]));
    assert!(done(&mut model, 2, &mut fs, Operation::Read(0, 100), none()));
    assert!(done(&mut model, 2, &mut fs, Operation::Resize(3 * PAGE_SIZE), none()));
    match model.dentry(2) {
        DentryInMemory::File(file) => {
            assert_eq!(file.valid_len, 8);
            assert_eq!(file.contents.len(), 3 * PAGE_SIZE);
            assert_eq!(file.contents[..9], [1, 2, 3, 4, 5, 6, 7, 8, 0]);
        }
        DentryInMemory::Dir(_) => panic!("it is a file"),
    }

    assert!(done(&mut model, 0, &mut fs, Operation::Rename("f".into(), "g".into()), none()));
    assert!(done(&mut model, 0, &mut fs, Operation::Rename("g".into(), "d".into()), none()));
    assert!(done(&mut model, 0, &mut fs, Operation::Unlink("d".into()), none()));
    assert!(done(&mut model, 0, &mut fs, Operation::Rmdir("g".into()), none()));
    assert_eq!(model.dentry(0).sub_cnt(), 2);
    assert!(done(&mut model, 0, &mut fs, Operation::Rmdir("d".into()), none()));
    assert!(done(&mut model, 0, &mut fs, Operation::Unlink("g".into()), none()));
    assert!(done(&mut model, 0, &mut fs, Operation::Readdir(), none()));
    assert_eq!(model.dentry(0).sub_cnt(), 0);
}

#[test]
fn the_model_follows_a_file_that_shrinks() {
    let none = Vec::new;
    let mut fs = load_exfat();
    let mut model = new_fs_in_memory(fs.root_inode());
    assert!(done(&mut model, 0, &mut fs, Operation::Create("f".into(), InodeType::File), none()));
    let bytes: Vec<u8> = (0..3 * PAGE_SIZE).map(|k| (k % 251) as u8).collect();
    assert!(done(&mut model, 1, &mut fs, Operation::Write(0, 3 * PAGE_SIZE), bytes));

    // Clusters are given back, some bytes of the last one that stays are cut off, and
    // everything is.
    for size in [PAGE_SIZE + 7, PAGE_SIZE + 3, 0] {
        assert!(done(&mut model, 1, &mut fs, Operation::Resize(size), none()));
        match model.dentry(1) {
            DentryInMemory::File(file) => assert_eq!(file.valid_len, size),
            DentryInMemory::Dir(_) => panic!("it is a file"),
        }
        assert!(done(&mut model, 1, &mut fs, Operation::Read(0, 4 * PAGE_SIZE), none()));
        assert!(done(&mut model, 1, &mut fs, Operation::Read(PAGE_SIZE, 5), none()));
    }
    assert!(done(&mut model, 1, &mut fs, Operation::Write(2, 2), vec![1, 2, 3, 4]));
    assert!(done(&mut model, 1, &mut fs, Operation::Read(0, 9), none()));
}

#[test]
fn the_model_notices_a_difference() {
    let mut fs = load_exfat();
    let root = fs.root_inode();
    let mut model = new_fs_in_memory(root);
    assert!(done(
        &mut model,
        0,
        &mut fs,
        Operation::Create("f".into(), InodeType::File),
        Vec::new()
    ));
    assert!(done(&mut model, 1, &mut fs, Operation::Write(0, 3), vec![1, 2, 3]));
    let file = root.lookup(&mut fs, "f").unwrap();
    assert_eq!(file.write_at(&mut fs, 1, &vec![9]), Ok(1));
    assert!(!done(&mut model, 1, &mut fs, Operation::Read(0, 3), Vec::new()));
    assert!(done(&mut model, 1, &mut fs, Operation::Read(2, 1), Vec::new()));

    assert_eq!(root.unlink(&mut fs, "f"), Ok(()));
    assert!(!done(&mut model, 0, &mut fs, Operation::Lookup("f".into()), Vec::new()));
    assert!(!done(&mut model, 0, &mut fs, Operation::Readdir(), Vec::new()));
}

#[test]
fn names_leave_and_come_back_in_a_directory_of_the_model() {
    let mut fs = load_exfat();
    let root = fs.root_inode();
    let mut model = new_fs_in_memory(root);
    for name in ["a", "b", "c"] {
        let op = Operation::Create(name.into(), InodeType::File);
        assert!(done(&mut model, 0, &mut fs, op, Vec::new()));
    }
    assert!(done(&mut model, 0, &mut fs, Operation::Unlink("b".into()), Vec::new()));
    match model.dentry(0) {
        DentryInMemory::Dir(dir) => assert_eq!(dir.sub_names, texts(&["a", "c"])),
        DentryInMemory::File(_) => panic!("the root is a directory"),
    }
    let op = Operation::Create("b".into(), InodeType::Dir);
    assert!(done(&mut model, 0, &mut fs, op, Vec::new()));
    assert!(done(&mut model, 0, &mut fs, Operation::Rmdir("b".into()), Vec::new()));
    assert!(done(&mut model, 0, &mut fs, Operation::Lookup("b".into()), Vec::new()));
}

#[test]
fn random_bytes_choose_operations() {
    let mut fs = load_exfat();
    let root = fs.root_inode();
    let mut model = new_fs_in_memory(root);
    let chosen = |model: &FsInMemory, bytes: Vec<u8>| {
        let (at, op) = generate_random_operation(model, 0, 12, &mut RandomSource::new(bytes));
        (at, format!("{:?}", op))
    };
    assert_eq!(chosen(&model, vec![0]), (0, "Create(\"12\", File)".to_string()));
    assert_eq!(chosen(&model, vec![40]), (0, "Create(\"12\", Dir)".to_string()));
    assert_eq!(chosen(&model, vec![80]), (0, "Create(\"12\", File)".to_string()));
    assert_eq!(chosen(&model, vec![200]), (0, "Readdir".to_string()));

    let op = Operation::Create("f".into(), InodeType::File);
    assert!(done(&mut model, 0, &mut fs, op, Vec::new()));
    assert_eq!(chosen(&model, vec![255, 80, 0]), (0, "Unlink(\"f\")".to_string()));
    assert_eq!(chosen(&model, vec![255, 120, 0]), (0, "Rmdir(\"f\")".to_string()));
    assert_eq!(chosen(&model, vec![255, 150, 0]), (0, "Lookup(\"f\")".to_string()));
    assert_eq!(
        chosen(&model, vec![255, 250, 0, 255, 0]),
        (0, "Rename(\"f\", \"f\")".to_string())
    );
    assert_eq!(chosen(&model, vec![255, 250, 0, 0]), (0, "Rename(\"f\", \"12\")".to_string()));
    assert_eq!(chosen(&model, vec![0, 0, 0, 51, 255]), (1, "Read(8192, 32768)".to_string()));
    assert_eq!(chosen(&model, vec![0, 0, 100, 51, 0]), (1, "Write(8192, 0)".to_string()));
    assert_eq!(chosen(&model, vec![0, 0, 200, 128]), (1, "Resize(20480)".to_string()));
    assert_eq!(random_select_from_dir_tree(&model, 0, &mut RandomSource::new(vec![0, 0])), 1);
    assert_eq!(random_select_from_dir_tree(&model, 0, &mut RandomSource::new(vec![255])), 0);
}
