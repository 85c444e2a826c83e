//! Parts of an ext2 file system.

pub mod blocks_hole;
