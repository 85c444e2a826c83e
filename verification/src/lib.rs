//! A verified core for an exFAT file system and the block layer beneath it.

pub mod arith;
pub mod block;
pub mod bytes;
pub mod errno;
pub mod ext2;
pub mod exfat;
pub mod random_test;
pub mod text;
