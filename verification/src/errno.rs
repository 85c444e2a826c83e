//! The error numbers that file system operations report.

use vstd::prelude::*;

verus! {

/// The reason why an operation was refused.
#[derive(Clone, Copy, Debug, PartialEq, Eq, Structural)]
pub enum Errno {
    /// An argument, or a structure read from the volume, is not valid.
    EINVAL,
    /// The volume holds something that cannot be followed.
    EIO,
    /// There is no room left.
    ENOSPC,
    /// The inode is not a directory.
    ENOTDIR,
    /// The inode is a directory.
    EISDIR,
    /// There is no entry of that name.
    ENOENT,
    /// There is already an entry of that name.
    EEXIST,
    /// The name is too long.
    ENAMETOOLONG,
    /// The directory still holds entries.
    ENOTEMPTY,
}

} // verus!
