//! Holes in files.

use exfat_core::ext2::blocks_hole::BlocksHoleDesc;

#[test]
fn new_blocks_are_no_holes() {
    let desc = BlocksHoleDesc::new(10);
    assert_eq!(desc.size(), 10);
    for idx in 0..10 {
        assert!(!desc.is_hole(idx));
    }
    assert_eq!(BlocksHoleDesc::new(0).size(), 0);
}

#[test]
fn holes_are_set_and_unset() {
    let mut desc = BlocksHoleDesc::new(70);
    desc.set(0);
    desc.set(64);
    assert!(desc.is_hole(0));
    assert!(!desc.is_hole(1));
    assert!(desc.is_hole(64));
    desc.unset(64);
    assert!(!desc.is_hole(64));
    assert!(desc.is_hole(0));
}

#[test]
fn growing_adds_holes() {
    let mut desc = BlocksHoleDesc::new(3);
    desc.resize(5);
    assert_eq!(desc.size(), 5);
    let holes: Vec<bool> = (0..5).map(|idx| desc.is_hole(idx)).collect();
    assert_eq!(holes, vec![false, false, false, true, true]);
    desc.resize(2);
    assert_eq!(desc.size(), 2);
    desc.resize(4);
    let holes: Vec<bool> = (0..4).map(|idx| desc.is_hole(idx)).collect();
    assert_eq!(holes, vec![false, false, true, true]);
}
