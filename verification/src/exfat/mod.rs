//! The exFAT file system.

pub mod bitmap;
pub mod chain;
pub mod constants;
pub mod dentry;
pub mod dentry_set;
pub mod disk;
pub mod fat;
pub mod fat_cache;
pub mod fs;
pub mod inode;
pub mod inode_map;
pub mod laws;
pub mod mount;
pub mod page;
pub mod super_block;
pub mod volume;
