//! What is told of an inode: its permissions, its times and its sizes.

use vstd::prelude::*;
use crate::exfat::dentry::DosTimestamp;
use crate::exfat::fs::attr::{metadata_of, node_mode};
use crate::exfat::fs::FsState;
use crate::exfat::inode::{mode_of, FatAttr, InodeMode, InodeView};
use crate::exfat::mount::MountView;

verus! {

/// Which permissions are left of some: none of those in the mask, where the mask is the one
/// for directories exactly where the attributes are those of a directory; none to write,
/// where the attributes are those of a file that is read-only; and all others.
pub proof fn law_permissions(attr: FatAttr, mount: MountView, mode: InodeMode)
    ensures
        ({
            let readonly = attr.bits & 0x01 != 0;
            let directory = attr.bits & 0x10 != 0;
            let left = mode_of(attr, mount, mode).bits;
            &&& directory ==> left == mode.bits & !(mount.fs_dmask & 0o7777)
            &&& !directory && !readonly ==> left == mode.bits & !(mount.fs_fmask & 0o7777)
            &&& !directory && readonly ==> left == mode.bits & !((mount.fs_fmask & 0o7777)
                | 0o222) && left & 0o222 == 0
        }),
{
    let a = attr.bits;
    let m = mode.bits;
    let f = mount.fs_fmask;
    assert(a & 0x01 == 0x01 <==> a & 0x01 != 0) by (bit_vector);
    assert(a & 0x10 == 0x10 <==> a & 0x10 != 0) by (bit_vector);
    assert((m & !0o222) & !(f & 0o7777) == m & !((f & 0o7777) | 0o222)) by (bit_vector);
    assert((m & !((f & 0o7777) | 0o222)) & 0o222 == 0) by (bit_vector);
}

/// The permissions of an inode: a file that is read-only cannot be written, and otherwise
/// only the bits of the mask for its kind are missing. The kind is the one that its own
/// attributes tell.
pub proof fn law_mode(s: FsState, i: int)
    ensures
        ({
            let a = s.nodes[i].attr.bits;
            let readonly = a & 0x01 != 0;
            let directory = a & 0x10 != 0;
            let bits = node_mode(s, i).bits;
            &&& readonly && !directory ==> bits & 0o222 == 0
            &&& directory ==> bits == 0o7777 & !s.mount.fs_dmask
            &&& !directory && !readonly ==> bits == 0o7777 & !s.mount.fs_fmask
            &&& !directory && readonly ==> bits == 0o7555 & !s.mount.fs_fmask
        }),
{
    let mode = InodeMode { bits: crate::exfat::inode::MODE_ALL };
    law_permissions(s.nodes[i].attr, s.mount, mode);
    let f = s.mount.fs_fmask;
    let d = s.mount.fs_dmask;
    assert(0o7777u16 & !(d & 0o7777) == 0o7777 & !d) by (bit_vector);
    assert(0o7777u16 & !(f & 0o7777) == 0o7777 & !f) by (bit_vector);
    assert(0o7777u16 & !((f & 0o7777) | 0o222) == 0o7555 & !f) by (bit_vector);
}

/// What is told of an inode is what it is: its number, the bytes that were written to it, the
/// blocks that they take, when it was read, written and made, its kind and permissions, and
/// its owner, who is the one of the whole volume. A directory is linked by itself, by the one
/// that holds it and by each one in it.
pub proof fn law_metadata(s: FsState, i: int)
    requires
        s.vol.super_block.wf(),
    ensures
        ({
            let n = s.nodes[i];
            let m = metadata_of(s, i);
            &&& m.ino == n.ino
            &&& m.size == n.size
            &&& m.atime == n.atime
            &&& m.mtime == n.mtime
            &&& m.ctime == n.ctime
            &&& m.type_ == n.inode_type
            &&& m.mode == node_mode(s, i)
            &&& m.blk_size == s.vol.super_block.sector_size
            &&& m.size <= m.blocks * m.blk_size < m.size + m.blk_size
            &&& n.inode_type is Dir ==> m.nlinks == n.num_subdir + 2
            &&& n.inode_type is File ==> m.nlinks == 1
            &&& m.uid == s.mount.fs_uid
            &&& m.gid == s.mount.fs_gid
            &&& m.dev == 0
            &&& m.rdev == 0
        }),
{
    crate::arith::lemma_rounded_up(
        s.nodes[i].size as int,
        s.vol.super_block.sector_size as int,
    );
}

/// A time that is set is the one that is told, and nothing else that is told changes.
pub proof fn law_times_are_set(s: FsState, i: int, time: DosTimestamp)
    requires
        0 <= i < s.nodes.len(),
    ensures
        ({
            let before = metadata_of(s, i);
            let n = s.nodes[i];
            let read = metadata_of(s.with_node(i, InodeView { atime: time, ..n }), i);
            let written = metadata_of(s.with_node(i, InodeView { mtime: time, ..n }), i);
            &&& read.atime == time
            &&& read.mtime == before.mtime
            &&& read.ctime == before.ctime
            &&& read.size == before.size
            &&& read.mode == before.mode
            &&& written.mtime == time
            &&& written.atime == before.atime
            &&& written.ctime == before.ctime
            &&& written.size == before.size
            &&& written.mode == before.mode
        }),
{
}

} // verus!
