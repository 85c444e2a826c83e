//! What directories offer: making, finding, listing, renaming and removing.

use vstd::prelude::*;
use crate::errno::Errno;
use crate::exfat::constants::MAX_NAME_LENGTH;
use crate::exfat::dentry::DosTimestamp;
use crate::exfat::fs::dir::{Dirent, DirentView};
use crate::exfat::fs::{ExfatFS, ExfatInode, FsState};
use crate::exfat::inode::{ExfatInodeInner, InodeMode, InodeType, InodeView};
use crate::text::{byte_len, characters, decode_utf16, encode_utf16, text_equal};

verus! {

/// The name of a directory itself.
pub open spec fn dot() -> Seq<char> {
    seq!['.']
}

/// The name of the directory that holds a directory.
pub open spec fn dot_dot() -> Seq<char> {
    seq!['.', '.']
}

/// Whether a name takes more bytes than names may.
pub open spec fn too_long(name: Seq<char>) -> bool {
    crate::text::byte_length(name) > MAX_NAME_LENGTH
}

/// What making a file or directory makes of the file system and returns.
pub open spec fn created(
    s: FsState,
    i: int,
    name: Seq<char>,
    inode_type: InodeType,
    now: DosTimestamp,
) -> (FsState, Result<usize, Errno>) {
    if !(s.nodes[i].inode_type is Dir) {
        (s, Err(Errno::ENOTDIR))
    } else if too_long(name) {
        (s, Err(Errno::ENAMETOOLONG))
    } else {
        let (s1, r1) = crate::exfat::fs::dir::name_found(s, i, name);
        if r1 is Ok {
            (s1, Err(Errno::EEXIST))
        } else {
            let (s2, r2) = crate::exfat::fs::dir::entry_added(s1, i, name, inode_type, now);
            match r2 {
                Err(e) => (s2, Err(e)),
                Ok(c) => (s2.with_opened(c as int), Ok(c)),
            }
        }
    }
}

/// What looking a name up makes of the file system and returns.
pub open spec fn looked_up(s: FsState, i: int, name: Seq<char>) -> (
    FsState,
    Result<usize, Errno>,
) {
    if !(s.nodes[i].inode_type is Dir) {
        (s, Err(Errno::ENOTDIR))
    } else if too_long(name) {
        (s, Err(Errno::ENAMETOOLONG))
    } else {
        let (s1, r1) = crate::exfat::fs::dir::name_found(s, i, name);
        match r1 {
            Err(e) => (s1, Err(e)),
            Ok((c, _, _)) => (s1, Ok(c)),
        }
    }
}

/// What removing the inode `c`, whose entries of `len` bytes are at `offset` of the
/// directory `i`, makes of the file system and returns.
pub open spec fn removed(s: FsState, i: int, c: int, offset: int, len: int) -> (
    FsState,
    Result<(), Errno>,
) {
    let (s1, r1) = crate::exfat::fs::file::inode_resized(s, c, 0);
    match r1 {
        Err(e) => (s1, Err(e)),
        Ok(_) => crate::exfat::fs::dir::entries_deleted(s1, i, offset, len),
    }
}

/// What removing a file makes of the file system and returns.
pub open spec fn unlinked(s: FsState, i: int, name: Seq<char>) -> (FsState, Result<(), Errno>) {
    if !(s.nodes[i].inode_type is Dir) {
        (s, Err(Errno::ENOTDIR))
    } else if too_long(name) {
        (s, Err(Errno::ENAMETOOLONG))
    } else if name == dot() || name == dot_dot() {
        (s, Err(Errno::EISDIR))
    } else {
        let (s1, r1) = crate::exfat::fs::dir::name_found(s, i, name);
        match r1 {
            Err(e) => (s1, Err(e)),
            Ok((c, offset, len)) => if !(s1.nodes[c as int].inode_type is File) {
                (s1, Err(Errno::EISDIR))
            } else {
                removed(s1, i, c as int, offset as int, len as int)
            },
        }
    }
}

/// What removing a directory makes of the file system and returns.
pub open spec fn directory_removed(s: FsState, i: int, name: Seq<char>) -> (
    FsState,
    Result<(), Errno>,
) {
    if !(s.nodes[i].inode_type is Dir) {
        (s, Err(Errno::ENOTDIR))
    } else if name == dot() {
        (s, Err(Errno::EINVAL))
    } else if name == dot_dot() {
        (s, Err(Errno::ENOTEMPTY))
    } else if too_long(name) {
        (s, Err(Errno::ENAMETOOLONG))
    } else {
        let (s1, r1) = crate::exfat::fs::dir::name_found(s, i, name);
        match r1 {
            Err(e) => (s1, Err(e)),
            Ok((c, offset, len)) => if !(s1.nodes[c as int].inode_type is Dir) {
                (s1, Err(Errno::ENOTDIR))
            } else if s1.nodes[c as int].num_subdir != 0 {
                (s1, Err(Errno::ENOTEMPTY))
            } else {
                removed(s1, i, c as int, offset as int, len as int)
            },
        }
    }
}

/// What listing a directory without its first `skipped` entries, behind the entries
/// that were listed before, makes of the file system and returns.
pub open spec fn listed(s: FsState, i: int, skipped: int, before: Seq<DirentView>) -> (
    FsState,
    Seq<DirentView>,
    Result<usize, Errno>,
) {
    let all = s.nodes[i].num_subdir;
    if skipped >= all {
        (s, before, Ok(0))
    } else {
        let (s1, _, r1) = crate::exfat::fs::dir::dirs_read(
            s,
            i,
            0,
            skipped as nat,
            Seq::empty(),
        );
        match r1 {
            Err(e) => (s1, before, Err(e)),
            Ok(slot) => {
                let (s2, entries, r2) = crate::exfat::fs::dir::dirs_read(
                    s1,
                    i,
                    slot as int,
                    (all - skipped) as nat,
                    before,
                );
                match r2 {
                    Err(e) => (s2, entries, Err(e)),
                    Ok(_) => (s2, entries, Ok((all - skipped) as usize)),
                }
            },
        }
    }
}

/// Whether the inode `moving` may take the place of the inode `there`.
pub open spec fn may_replace(moving: InodeView, there: InodeView) -> Result<(), Errno> {
    if moving.inode_type is Dir {
        if !(there.inode_type is Dir) {
            Err(Errno::ENOTDIR)
        } else if there.num_subdir != 0 {
            Err(Errno::ENOTEMPTY)
        } else {
            Ok(())
        }
    } else if there.inode_type is Dir {
        Err(Errno::EISDIR)
    } else {
        Ok(())
    }
}

/// An inode that takes its place and its times from another one.
pub open spec fn metadata_copied(n: InodeView, from: InodeView) -> InodeView {
    InodeView {
        dentry_set_position: from.dentry_set_position,
        dentry_set_size: from.dentry_set_size,
        dentry_entry: from.dentry_entry,
        atime: from.atime,
        ctime: from.ctime,
        mtime: from.mtime,
        name: crate::text::utf16(crate::text::text_of_utf16(from.name)),
        parent_hash: from.parent_hash,
        ..n
    }
}

/// The state in which what is held by the directory with one hash is held by the one
/// with another.
pub open spec fn with_new_parent(s: FsState, old_hash: u64, new_hash: u64) -> FsState {
    FsState {
        nodes: Seq::new(
            s.nodes.len(),
            |j: int|
                if s.nodes[j].parent_hash == old_hash {
                    InodeView { parent_hash: new_hash, ..s.nodes[j] }
                } else {
                    s.nodes[j]
                },
        ),
        ..s
    }
}

/// What moving the inode `c`, whose entries of `len` bytes are at `offset` of the
/// directory `i`, to a new name in the directory `t` makes of the file system and
/// returns.
#[verifier::opaque]
pub open spec fn moved(
    s: FsState,
    i: int,
    c: int,
    offset: int,
    len: int,
    t: int,
    new_name: Seq<char>,
    now: DosTimestamp,
) -> (FsState, Result<(), Errno>) {
    let (s1, r1) = crate::exfat::fs::dir::entry_added(
        s,
        t,
        new_name,
        s.nodes[c].inode_type,
        now,
    );
    match r1 {
        Err(e) => (s1, Err(e)),
        Ok(new) => {
            let old_hash = crate::exfat::inode::inode_hash(s1.nodes[c]);
            let s2 = s1.without_opened(old_hash);
            let s3 = s2.with_node(c, metadata_copied(s2.nodes[c], s2.nodes[new as int]));
            let s4 = if s.nodes[c].inode_type is Dir {
                with_new_parent(s3, old_hash, crate::exfat::inode::inode_hash(s3.nodes[c]))
            } else {
                s3
            };
            crate::exfat::fs::dir::entries_deleted(s4.with_opened(c), i, offset, len)
        },
    }
}

/// What removing the inode `x`, whose entries of `len` bytes are at `offset` of the
/// directory `t`, after another inode took its name makes of the file system and
/// returns.
#[verifier::opaque]
pub open spec fn replaced(s: FsState, t: int, x: int, offset: int, len: int) -> (
    FsState,
    Result<(), Errno>,
) {
    let s1 = s.without_opened(crate::exfat::inode::inode_hash(s.nodes[x]));
    removed(s1, t, x, offset, len)
}

/// What renaming makes of the file system and returns.
pub open spec fn renamed(
    s: FsState,
    i: int,
    old_name: Seq<char>,
    t: int,
    new_name: Seq<char>,
    now: DosTimestamp,
) -> (FsState, Result<(), Errno>) {
    if old_name == dot() || old_name == dot_dot() || new_name == dot() || new_name == dot_dot() {
        (s, Err(Errno::EISDIR))
    } else if too_long(old_name) || too_long(new_name) {
        (s, Err(Errno::ENAMETOOLONG))
    } else if !(s.nodes[i].inode_type is Dir) || !(s.nodes[t].inode_type is Dir) {
        (s, Err(Errno::ENOTDIR))
    } else if s.nodes[i].ino == s.nodes[t].ino && old_name == new_name {
        (s, Ok(()))
    } else {
        let (s1, r1) = crate::exfat::fs::dir::name_found(s, i, old_name);
        match r1 {
            Err(e) => (s1, Err(e)),
            Ok((c, offset, len)) => {
                let (s2, r2) = crate::exfat::fs::dir::name_found(s1, t, new_name);
                match r2 {
                    Err(_) => moved(
                        s2,
                        i,
                        c as int,
                        offset as int,
                        len as int,
                        t,
                        new_name,
                        now,
                    ),
                    Ok((x, there, there_len)) => match may_replace(
                        s2.nodes[c as int],
                        s2.nodes[x as int],
                    ) {
                        Err(e) => (s2, Err(e)),
                        Ok(_) => {
                            let (s3, r3) = moved(
                                s2,
                                i,
                                c as int,
                                offset as int,
                                len as int,
                                t,
                                new_name,
                                now,
                            );
                            match r3 {
                                Err(e) => (s3, Err(e)),
                                Ok(_) => replaced(
                                    s3,
                                    t,
                                    x as int,
                                    there as int,
                                    there_len as int,
                                ),
                            }
                        },
                    },
                }
            },
        }
    }
}

fn is_dot(name: &str) -> (result: bool)
    ensures
        result == (name@ == dot()),
{
    let chars: Vec<char> = characters(name);
    if chars.len() != 1 {
        return false;
    }
    let result: bool = chars[0] == '.';
    assert(result ==> name@ =~= dot());
    result
}

fn is_dot_dot(name: &str) -> (result: bool)
    ensures
        result == (name@ == dot_dot()),
{
    let chars: Vec<char> = characters(name);
    if chars.len() != 2 {
        return false;
    }
    let result: bool = chars[0] == '.' && chars[1] == '.';
    assert(result ==> name@ =~= dot_dot());
    result
}

impl ExfatFS {
    /// Has the inode `c` take its place and its times from the inode `from`.
    fn copy_metadata(&mut self, c: usize, from: usize)
        requires
            old(self).wf(),
            c < old(self)@.nodes.len(),
            from < old(self)@.nodes.len(),
        ensures
            final(self).wf(),
            final(self)@ == old(self)@.with_node(
                c as int,
                metadata_copied(old(self)@.nodes[c as int], old(self)@.nodes[from as int]),
            ),
    {
        let name: String = decode_utf16(&self.node(from).inode_impl.name);
        let units: Vec<u16> = encode_utf16(name.as_str());
        let source = &self.node(from).inode_impl;
        let position = source.dentry_set_position;
        let dentry_set_size: usize = source.dentry_set_size;
        let dentry_entry: u32 = source.dentry_entry;
        let atime: DosTimestamp = source.atime;
        let ctime: DosTimestamp = source.ctime;
        let mtime: DosTimestamp = source.mtime;
        let parent_hash: u64 = source.parent_hash;
        self.nodes[c].inode_impl.dentry_set_position = position;
        self.nodes[c].inode_impl.dentry_set_size = dentry_set_size;
        self.nodes[c].inode_impl.dentry_entry = dentry_entry;
        self.nodes[c].inode_impl.atime = atime;
        self.nodes[c].inode_impl.ctime = ctime;
        self.nodes[c].inode_impl.mtime = mtime;
        self.nodes[c].inode_impl.name = units;
        self.nodes[c].inode_impl.parent_hash = parent_hash;
        assert(self@.nodes =~= old(self)@.nodes.update(
            c as int,
            metadata_copied(old(self)@.nodes[c as int], old(self)@.nodes[from as int]),
        ));
    }
}

impl ExfatFS {
    /// Has what is held by the directory with one hash be held by the one with another.
    fn change_parent(&mut self, old_hash: u64, new_hash: u64)
        requires
            old(self).wf(),
        ensures
            final(self).wf(),
            final(self)@ == with_new_parent(old(self)@, old_hash, new_hash),
    {
        let mut k: usize = 0;
        while k < self.nodes.len()
            invariant
                self.wf(),
                k <= self.nodes@.len(),
                self@ == (FsState { nodes: self@.nodes, ..old(self)@ }),
                self@.nodes.len() == self.nodes@.len(),
                self@.nodes.len() == old(self)@.nodes.len(),
                forall|j: int|
                    0 <= j < k ==> #[trigger] self@.nodes[j] == with_new_parent(
                        old(self)@,
                        old_hash,
                        new_hash,
                    ).nodes[j],
                forall|j: int|
                    k <= j < self@.nodes.len() ==> #[trigger] self@.nodes[j]
                        == old(self)@.nodes[j],
            decreases self.nodes@.len() - k,
        {
            if self.node(k).inode_impl.parent_hash == old_hash {
                let ghost before = self@;
                self.nodes[k].inode_impl.parent_hash = new_hash;
                assert(self@ =~= before.with_node(
                    k as int,
                    InodeView { parent_hash: new_hash, ..before.nodes[k as int] },
                ));
            }
            k = k + 1;
        }
        assert(self@ =~= with_new_parent(old(self)@, old_hash, new_hash));
    }
}

impl ExfatInode {
    /// Removes the inode `child`, whose entries of `len` bytes are at `offset` of this
    /// directory.
    fn remove(&self, fs: &mut ExfatFS, child: ExfatInode, offset: usize, len: usize) -> (result:
        Result<(), Errno>)
        requires
            old(fs).wf(),
            self.of(old(fs)@),
            child.of(old(fs)@),
        ensures
            final(fs).wf(),
            (final(fs)@, result) == removed(
                old(fs)@,
                self.id(),
                child.id(),
                offset as int,
                len as int,
            ),
            final(fs)@.nodes.len() == old(fs)@.nodes.len(),
    {
        match ExfatInodeInner::resize(fs, child, 0) {
            Err(e) => Err(e),
            Ok(_) => fs.delete_dentry_set(self.index, offset, len),
        }
    }

    /// Makes a file or directory in this directory.
    pub fn create(
        &self,
        fs: &mut ExfatFS,
        name: &str,
        type_: InodeType,
        mode: InodeMode,
        now: DosTimestamp,
    ) -> (result: Result<ExfatInode, Errno>)
        requires
            old(fs).wf(),
            self.of(old(fs)@),
        ensures
            final(fs).wf(),
            ({
                let (s, r) = created(old(fs)@, self.id(), name@, type_, now);
                &&& final(fs)@ == s
                &&& match r {
                    Ok(c) => result is Ok && result->Ok_0.id() == c && result->Ok_0.of(s),
                    Err(e) => result == Err::<ExfatInode, Errno>(e),
                }
            }),
            final(fs)@.nodes.len() >= old(fs)@.nodes.len(),
    {
        if !fs.node(self.index).inode_impl.inode_type.is_directory() {
            return Err(Errno::ENOTDIR);
        }
        if byte_len(name) > MAX_NAME_LENGTH {
            return Err(Errno::ENAMETOOLONG);
        }
        if fs.lookup_by_name(self.index, name).is_ok() {
            return Err(Errno::EEXIST);
        }
        match fs.add_entry(self.index, name, type_, now) {
            Err(e) => Err(e),
            Ok(inode) => {
                let _ = fs.insert_inode(inode);
                Ok(inode)
            },
        }
    }

    /// Looks a name up in this directory.
    pub fn lookup(&self, fs: &mut ExfatFS, name: &str) -> (result: Result<ExfatInode, Errno>)
        requires
            old(fs).wf(),
            self.of(old(fs)@),
        ensures
            final(fs).wf(),
            ({
                let (s, r) = looked_up(old(fs)@, self.id(), name@);
                &&& final(fs)@ == s
                &&& match r {
                    Ok(c) => result is Ok && result->Ok_0.id() == c && result->Ok_0.of(s),
                    Err(e) => result == Err::<ExfatInode, Errno>(e),
                }
            }),
            crate::exfat::fs::dir::nodes_kept(old(fs)@, final(fs)@),
    {
        if !fs.node(self.index).inode_impl.inode_type.is_directory() {
            return Err(Errno::ENOTDIR);
        }
        if byte_len(name) > MAX_NAME_LENGTH {
            return Err(Errno::ENAMETOOLONG);
        }
        match fs.lookup_by_name(self.index, name) {
            Err(e) => Err(e),
            Ok((inode, _, _)) => Ok(inode),
        }
    }

    /// Removes a file from this directory.
    pub fn unlink(&self, fs: &mut ExfatFS, name: &str) -> (result: Result<(), Errno>)
        requires
            old(fs).wf(),
            self.of(old(fs)@),
        ensures
            final(fs).wf(),
            (final(fs)@, result) == unlinked(old(fs)@, self.id(), name@),
            final(fs)@.nodes.len() >= old(fs)@.nodes.len(),
    {
        if !fs.node(self.index).inode_impl.inode_type.is_directory() {
            return Err(Errno::ENOTDIR);
        }
        if byte_len(name) > MAX_NAME_LENGTH {
            return Err(Errno::ENAMETOOLONG);
        }
        if is_dot(name) || is_dot_dot(name) {
            return Err(Errno::EISDIR);
        }
        match fs.lookup_by_name(self.index, name) {
            Err(e) => Err(e),
            Ok((inode, offset, len)) => {
                if !fs.node(inode.index).inode_impl.inode_type.is_reguler_file() {
                    return Err(Errno::EISDIR);
                }
                self.remove(fs, inode, offset, len)
            },
        }
    }

    /// Removes a directory from this directory.
    pub fn rmdir(&self, fs: &mut ExfatFS, name: &str) -> (result: Result<(), Errno>)
        requires
            old(fs).wf(),
            self.of(old(fs)@),
        ensures
            final(fs).wf(),
            (final(fs)@, result) == directory_removed(old(fs)@, self.id(), name@),
            final(fs)@.nodes.len() >= old(fs)@.nodes.len(),
    {
        if !fs.node(self.index).inode_impl.inode_type.is_directory() {
            return Err(Errno::ENOTDIR);
        }
        if is_dot(name) {
            return Err(Errno::EINVAL);
        }
        if is_dot_dot(name) {
            return Err(Errno::ENOTEMPTY);
        }
        if byte_len(name) > MAX_NAME_LENGTH {
            return Err(Errno::ENAMETOOLONG);
        }
        match fs.lookup_by_name(self.index, name) {
            Err(e) => Err(e),
            Ok((inode, offset, len)) => {
                match fs.node(inode.index).inode_impl.is_empty_dir() {
                    Err(e) => {
                        return Err(e);
                    },
                    Ok(empty) => {
                        if !empty {
                            return Err(Errno::ENOTEMPTY);
                        }
                    },
                }
                self.remove(fs, inode, offset, len)
            },
        }
    }

    /// Lists this directory without its first `dir_cnt` entries, and returns how many
    /// entries were listed.
    pub fn readdir_at(&self, fs: &mut ExfatFS, dir_cnt: usize, entries: &mut Vec<Dirent>) -> (result:
        Result<usize, Errno>)
        requires
            old(fs).wf(),
            self.of(old(fs)@),
        ensures
            final(fs).wf(),
            (
                final(fs)@,
                crate::exfat::fs::dir::dirents(final(entries)@),
                result,
            ) == listed(
                old(fs)@,
                self.id(),
                dir_cnt as int,
                crate::exfat::fs::dir::dirents(old(entries)@),
            ),
            crate::exfat::fs::dir::nodes_kept(old(fs)@, final(fs)@),
    {
        let num_subdir: usize = fs.node(self.index).inode_impl.num_subdir as usize;
        if dir_cnt >= num_subdir {
            return Ok(0);
        }
        let mut skipped: Vec<Dirent> = Vec::new();
        assert(crate::exfat::fs::dir::dirents(skipped@) =~= Seq::<DirentView>::empty());
        let slot: usize = match fs.read_multiple_dirs(self.index, 0, dir_cnt, &mut skipped) {
            Err(e) => {
                return Err(e);
            },
            Ok(slot) => slot,
        };
        match fs.read_multiple_dirs(self.index, slot, num_subdir - dir_cnt, entries) {
            Err(e) => Err(e),
            Ok(_) => Ok(num_subdir - dir_cnt),
        }
    }

    /// Moves the inode `child`, whose entries of `len` bytes are at `offset` of this
    /// directory, to a new name in the directory `target`.
    fn move_to(
        &self,
        fs: &mut ExfatFS,
        child: ExfatInode,
        offset: usize,
        len: usize,
        target: &ExfatInode,
        new_name: &str,
        now: DosTimestamp,
    ) -> (result: Result<(), Errno>)
        requires
            old(fs).wf(),
            self.of(old(fs)@),
            child.of(old(fs)@),
            target.of(old(fs)@),
        ensures
            final(fs).wf(),
            (final(fs)@, result) == moved(
                old(fs)@,
                self.id(),
                child.id(),
                offset as int,
                len as int,
                target.id(),
                new_name@,
                now,
            ),
            final(fs)@.nodes.len() >= old(fs)@.nodes.len(),
    {
        reveal(moved);
        let inode_type: InodeType = fs.node(child.index).inode_impl.inode_type;
        let new_inode: ExfatInode = match fs.add_entry(target.index, new_name, inode_type, now) {
            Err(e) => {
                return Err(e);
            },
            Ok(new_inode) => new_inode,
        };
        let hash: u64 = fs.node(child.index).inode_impl.hash_index();
        assert(hash == crate::exfat::inode::inode_hash(fs@.nodes[child.id()]));
        fs.evict_inode(hash);
        fs.copy_metadata(child.index, new_inode.index);
        if inode_type.is_directory() {
            let new_hash: u64 = fs.node(child.index).inode_impl.hash_index();
            assert(new_hash == crate::exfat::inode::inode_hash(fs@.nodes[child.id()]));
            fs.change_parent(hash, new_hash);
        }
        let _ = fs.insert_inode(child);
        fs.delete_dentry_set(self.index, offset, len)
    }

    /// Removes the inode `there`, whose entries of `len` bytes are at `offset` of this
    /// directory, after another inode took its name.
    fn replace(&self, fs: &mut ExfatFS, there: ExfatInode, offset: usize, len: usize) -> (result:
        Result<(), Errno>)
        requires
            old(fs).wf(),
            self.of(old(fs)@),
            there.of(old(fs)@),
        ensures
            final(fs).wf(),
            (final(fs)@, result) == replaced(
                old(fs)@,
                self.id(),
                there.id(),
                offset as int,
                len as int,
            ),
            final(fs)@.nodes.len() >= old(fs)@.nodes.len(),
    {
        reveal(replaced);
        let hash: u64 = fs.node(there.index).inode_impl.hash_index();
        assert(hash == crate::exfat::inode::inode_hash(fs@.nodes[there.id()]));
        fs.evict_inode(hash);
        self.remove(fs, there, offset, len)
    }

    /// Whether this inode may take the place of the inode `there`.
    fn check_replace(&self, fs: &ExfatFS, there: &ExfatInode) -> (result: Result<(), Errno>)
        requires
            self.of(fs@),
            there.of(fs@),
        ensures
            result == may_replace(fs@.nodes[self.id()], fs@.nodes[there.id()]),
    {
        if fs.node(self.index).inode_impl.inode_type.is_directory() {
            match fs.node(there.index).inode_impl.is_empty_dir() {
                Err(e) => {
                    return Err(e);
                },
                Ok(empty) => {
                    if !empty {
                        return Err(Errno::ENOTEMPTY);
                    }
                },
            }
        }
        if fs.node(self.index).inode_impl.inode_type.is_reguler_file() && fs.node(
            there.index,
        ).inode_impl.inode_type.is_directory() {
            return Err(Errno::EISDIR);
        }
        Ok(())
    }

    /// Gives what is called `old_name` in this directory the name `new_name` in the
    /// directory `target`.
    pub fn rename(
        &self,
        fs: &mut ExfatFS,
        old_name: &str,
        target: &ExfatInode,
        new_name: &str,
        now: DosTimestamp,
    ) -> (result: Result<(), Errno>)
        requires
            old(fs).wf(),
            self.of(old(fs)@),
            target.of(old(fs)@),
        ensures
            final(fs).wf(),
            (final(fs)@, result) == renamed(
                old(fs)@,
                self.id(),
                old_name@,
                target.id(),
                new_name@,
                now,
            ),
            final(fs)@.nodes.len() >= old(fs)@.nodes.len(),
    {
        if is_dot(old_name) || is_dot_dot(old_name) || is_dot(new_name) || is_dot_dot(new_name) {
            return Err(Errno::EISDIR);
        }
        if byte_len(old_name) > MAX_NAME_LENGTH || byte_len(new_name) > MAX_NAME_LENGTH {
            return Err(Errno::ENAMETOOLONG);
        }
        if !fs.node(self.index).inode_impl.inode_type.is_directory() || !fs.node(
            target.index,
        ).inode_impl.inode_type.is_directory() {
            return Err(Errno::ENOTDIR);
        }
        if fs.node(self.index).inode_impl.ino == fs.node(target.index).inode_impl.ino
            && text_equal(old_name, new_name) {
            return Ok(());
        }
        let (old_inode, old_offset, old_len): (ExfatInode, usize, usize) = match fs.lookup_by_name(
            self.index,
            old_name,
        ) {
            Err(e) => {
                return Err(e);
            },
            Ok(found) => found,
        };
        match fs.lookup_by_name(target.index, new_name) {
            Err(_) => self.move_to(fs, old_inode, old_offset, old_len, target, new_name, now),
            Ok((exist_inode, exist_offset, exist_len)) => {
                match old_inode.check_replace(fs, &exist_inode) {
                    Err(e) => {
                        return Err(e);
                    },
                    Ok(_) => {},
                }
                match self.move_to(fs, old_inode, old_offset, old_len, target, new_name, now) {
                    Err(e) => Err(e),
                    Ok(_) => target.replace(fs, exist_inode, exist_offset, exist_len),
                }
            },
        }
    }
}

} // verus!
