//! Requests that are refused: what they are answered, and that nothing changes.

use vstd::prelude::*;
use crate::errno::Errno;
use crate::exfat::dentry::DosTimestamp;
use crate::exfat::fat::ClusterID;
use crate::exfat::fs::FsState;
use crate::exfat::inode::{InodeType, InodeView};
use crate::exfat::laws::open::both_open;
use crate::exfat::laws::dir::{dir_ok, dir_opens, name_of, names_differ};
use crate::exfat::laws::layout::Held;
use crate::exfat::laws::rename::{absent, proper};

verus! {

/// What is not a directory holds nothing: every request to it is refused, and nothing
/// changes.
pub proof fn law_not_a_directory(
    s: FsState,
    i: int,
    name: Seq<char>,
    inode_type: InodeType,
    now: DosTimestamp,
)
    requires
        !(s.nodes[i].inode_type is Dir),
    ensures
        crate::exfat::fs::namei::created(s, i, name, inode_type, now) == (
            s,
            Err::<usize, Errno>(Errno::ENOTDIR),
        ),
        crate::exfat::fs::namei::looked_up(s, i, name) == (
            s,
            Err::<usize, Errno>(Errno::ENOTDIR),
        ),
        crate::exfat::fs::namei::unlinked(s, i, name) == (s, Err::<(), Errno>(Errno::ENOTDIR)),
        crate::exfat::fs::namei::directory_removed(s, i, name) == (
            s,
            Err::<(), Errno>(Errno::ENOTDIR),
        ),
{
}

/// The names of a directory itself and of the one that holds it can neither be removed
/// nor given nor taken away, and nothing changes.
pub proof fn law_dots_refused(
    s: FsState,
    i: int,
    name: Seq<char>,
    j: int,
    other: Seq<char>,
    now: DosTimestamp,
)
    requires
        s.nodes[i].inode_type is Dir,
        name == crate::exfat::fs::namei::dot() || name == crate::exfat::fs::namei::dot_dot(),
        !crate::exfat::fs::namei::too_long(name),
    ensures
        crate::exfat::fs::namei::unlinked(s, i, name) == (s, Err::<(), Errno>(Errno::EISDIR)),
        name == crate::exfat::fs::namei::dot() ==> crate::exfat::fs::namei::directory_removed(
            s,
            i,
            name,
        ) == (s, Err::<(), Errno>(Errno::EINVAL)),
        name != crate::exfat::fs::namei::dot() ==> crate::exfat::fs::namei::directory_removed(
            s,
            i,
            name,
        ) == (s, Err::<(), Errno>(Errno::ENOTEMPTY)),
        crate::exfat::fs::namei::renamed(s, i, name, j, other, now) == (
            s,
            Err::<(), Errno>(Errno::EISDIR),
        ),
        crate::exfat::fs::namei::renamed(s, i, other, j, name, now) == (
            s,
            Err::<(), Errno>(Errno::EISDIR),
        ),
{
}

/// Names that take too many bytes are refused, and nothing changes.
pub proof fn law_long_names_refused(
    s: FsState,
    i: int,
    name: Seq<char>,
    inode_type: InodeType,
    now: DosTimestamp,
)
    requires
        s.nodes[i].inode_type is Dir,
        crate::exfat::fs::namei::too_long(name),
        name != crate::exfat::fs::namei::dot(),
        name != crate::exfat::fs::namei::dot_dot(),
    ensures
        crate::exfat::fs::namei::created(s, i, name, inode_type, now) == (
            s,
            Err::<usize, Errno>(Errno::ENAMETOOLONG),
        ),
        crate::exfat::fs::namei::looked_up(s, i, name) == (
            s,
            Err::<usize, Errno>(Errno::ENAMETOOLONG),
        ),
        crate::exfat::fs::namei::unlinked(s, i, name) == (
            s,
            Err::<(), Errno>(Errno::ENAMETOOLONG),
        ),
        crate::exfat::fs::namei::directory_removed(s, i, name) == (
            s,
            Err::<(), Errno>(Errno::ENAMETOOLONG),
        ),
{
}

/// Contents of directories are neither read nor written, and nothing changes.
pub proof fn law_directory_contents_refused(s: FsState, i: int, offset: int, bytes: Seq<u8>)
    requires
        s.nodes[i].inode_type is Dir,
    ensures
        crate::exfat::fs::io::file_read(s.nodes[i], offset, bytes.len() as int) == Err::<
            Seq<u8>,
            Errno,
        >(Errno::EISDIR),
        crate::exfat::fs::io::file_written(s, i, offset, bytes) == (
            s,
            Err::<usize, Errno>(Errno::EISDIR),
        ),
        crate::exfat::fs::io::file_read_direct(s, i, offset, bytes.len() as int) == (
            s,
            Err::<Seq<u8>, Errno>(Errno::EISDIR),
        ),
        crate::exfat::fs::io::file_written_direct(s, i, offset, bytes) == (
            s,
            Err::<usize, Errno>(Errno::EISDIR),
        ),
{
}

/// Removing or renaming what is not there is refused, and nothing changes but what is
/// kept in memory.
pub proof fn law_missing_refused(
    o: FsState,
    s: FsState,
    i: int,
    cs: Seq<ClusterID>,
    es: Seq<Held>,
    name: Seq<char>,
    j: int,
    new_name: Seq<char>,
    now: DosTimestamp,
)
    requires
        dir_opens(o, s, i, cs, es),
        names_differ(s, es),
        proper(name),
        absent(s, es, name),
        proper(new_name),
        0 <= j < o.nodes.len(),
        s.nodes[j].inode_type is Dir,
        !(s.nodes[i].ino == s.nodes[j].ino && name == new_name),
    ensures
        ({
            let (t, r) = crate::exfat::fs::namei::unlinked(o, i, name);
            &&& r == Err::<(), Errno>(Errno::ENOENT)
            &&& t == s.with_vol(t.vol)
            &&& dir_ok(t, i, cs, es)
        }),
        ({
            let (t, r) = crate::exfat::fs::namei::directory_removed(o, i, name);
            &&& r == Err::<(), Errno>(Errno::ENOENT)
            &&& t == s.with_vol(t.vol)
            &&& dir_ok(t, i, cs, es)
        }),
        ({
            let (t, r) = crate::exfat::fs::namei::renamed(o, i, name, j, new_name, now);
            &&& r == Err::<(), Errno>(Errno::ENOENT)
            &&& t == s.with_vol(t.vol)
            &&& dir_ok(t, i, cs, es)
        }),
{
    crate::exfat::laws::dir::lemma_dir_opens(o, s, i, cs, es);
    crate::exfat::laws::dir::law_name_found(o, s, i, cs, es, name);
}

/// Removing a directory as if it were a file, a file as if it were a directory, or a
/// directory that is not empty is refused, and nothing changes but what is kept in memory.
pub proof fn law_wrong_kind_refused(
    o: FsState,
    s: FsState,
    i: int,
    cs: Seq<ClusterID>,
    es: Seq<Held>,
    k: int,
)
    requires
        dir_opens(o, s, i, cs, es),
        names_differ(s, es),
        0 <= k < es.len(),
        proper(name_of(s.nodes[es[k].inode])),
    ensures
        ({
            let n = s.nodes[es[k].inode];
            let (t, r) = crate::exfat::fs::namei::unlinked(o, i, name_of(n));
            n.inode_type is Dir ==> {
                &&& r == Err::<(), Errno>(Errno::EISDIR)
                &&& t == s.with_vol(t.vol)
                &&& dir_ok(t, i, cs, es)
            }
        }),
        ({
            let n = s.nodes[es[k].inode];
            let (t, r) = crate::exfat::fs::namei::directory_removed(o, i, name_of(n));
            n.inode_type is File || n.num_subdir != 0 ==> {
                &&& r == Err::<(), Errno>(
                    if n.inode_type is File {
                        Errno::ENOTDIR
                    } else {
                        Errno::ENOTEMPTY
                    },
                )
                &&& t == s.with_vol(t.vol)
                &&& dir_ok(t, i, cs, es)
            }
        }),
{
    crate::exfat::laws::dir::lemma_dir_opens(o, s, i, cs, es);
    crate::exfat::laws::dir::lemma_dir_entry(s, i, cs, es, k);
    crate::exfat::laws::dir::law_name_found(o, s, i, cs, es, name_of(s.nodes[es[k].inode]));
}

/// Renaming over what must not be replaced is refused, and nothing changes but what is
/// kept in memory.
pub proof fn law_replacing_refused(
    o: FsState,
    s: FsState,
    i: int,
    cs: Seq<ClusterID>,
    es: Seq<Held>,
    k: int,
    j: int,
    ct: Seq<ClusterID>,
    et: Seq<Held>,
    x: int,
    now: DosTimestamp,
)
    requires
        both_open(o, s, i, cs, es, name_of(s.nodes[es[k].inode]), j, ct, et),
        names_differ(s, es),
        names_differ(s, et),
        0 <= k < es.len(),
        0 <= x < et.len(),
        proper(name_of(s.nodes[es[k].inode])),
        proper(name_of(s.nodes[et[x].inode])),
        !(s.nodes[i].ino == s.nodes[j].ino && name_of(s.nodes[es[k].inode]) == name_of(
            s.nodes[et[x].inode],
        )),
        crate::exfat::fs::namei::may_replace(s.nodes[es[k].inode], s.nodes[et[x].inode]) is Err,
    ensures
        ({
            let (t, r) = crate::exfat::fs::namei::renamed(
                o,
                i,
                name_of(s.nodes[es[k].inode]),
                j,
                name_of(s.nodes[et[x].inode]),
                now,
            );
            &&& r == crate::exfat::fs::namei::may_replace(
                s.nodes[es[k].inode],
                s.nodes[et[x].inode],
            )
            &&& t == s.with_vol(t.vol)
            &&& dir_ok(t, i, cs, es)
            &&& dir_ok(t, j, ct, et)
        }),
{
    let old_name = name_of(s.nodes[es[k].inode]);
    let new_name = name_of(s.nodes[et[x].inode]);
    crate::exfat::laws::open::lemma_both_found(o, s, i, cs, es, k, j, ct, et, new_name);
    crate::exfat::laws::dir::lemma_dir_entry(s, i, cs, es, k);
    crate::exfat::laws::dir::lemma_dir_entry(s, j, ct, et, x);
    let s1 = crate::exfat::fs::dir::name_found(o, i, old_name).0;
    let s2 = crate::exfat::fs::dir::name_found(s1, j, new_name).0;
}

/// Names may take 255 bytes, and the names of a directory itself and of the one that holds it
/// are one dot and two.
pub proof fn law_special_names(name: Seq<char>)
    ensures
        crate::exfat::fs::namei::too_long(name) <==> vstd::utf8::encode_utf8(name).len() > 255,
        crate::exfat::fs::namei::dot() == seq!['.'],
        crate::exfat::fs::namei::dot_dot() == seq!['.', '.'],
{
}

/// What may take the place of what: a file that of a file, and a directory that of a directory
/// without entries. A directory cannot take the place of a file, nor a file that of a directory.
pub proof fn law_may_replace(moving: InodeView, there: InodeView)
    ensures
        ({
            let r = crate::exfat::fs::namei::may_replace(moving, there);
            &&& r is Ok <==> (moving.inode_type == there.inode_type && (moving.inode_type is Dir
                ==> there.num_subdir == 0))
            &&& moving.inode_type is Dir && there.inode_type is File ==> r == Err::<(), Errno>(
                Errno::ENOTDIR,
            )
            &&& moving.inode_type is File && there.inode_type is Dir ==> r == Err::<(), Errno>(
                Errno::EISDIR,
            )
            &&& moving.inode_type is Dir && there.inode_type is Dir && there.num_subdir != 0 ==> r
                == Err::<(), Errno>(Errno::ENOTEMPTY)
        }),
{
}

/// Files are read and written on the disk by whole sectors: every other request is refused, and
/// nothing changes.
pub proof fn law_unaligned_refused(s: FsState, i: int, offset: int, bytes: Seq<u8>)
    requires
        s.nodes[i].inode_type is File,
        offset % (s.vol.super_block.sector_size as int) != 0 || bytes.len() as int % (
        s.vol.super_block.sector_size as int) != 0,
    ensures
        crate::exfat::fs::io::file_read_direct(s, i, offset, bytes.len() as int) == (
            s,
            Err::<Seq<u8>, Errno>(Errno::EINVAL),
        ),
        crate::exfat::fs::io::file_written_direct(s, i, offset, bytes) == (
            s,
            Err::<usize, Errno>(Errno::EINVAL),
        ),
{
}

/// A name that stays the same in the same directory is renamed without a change, whether it is
/// there or not.
pub proof fn law_same_name(s: FsState, i: int, name: Seq<char>, now: DosTimestamp)
    requires
        s.nodes[i].inode_type is Dir,
        vstd::utf8::encode_utf8(name).len() <= 255,
        name != seq!['.'],
        name != seq!['.', '.'],
    ensures
        crate::exfat::fs::namei::renamed(s, i, name, i, name, now) == (s, Ok::<(), Errno>(())),
{
}

} // verus!
