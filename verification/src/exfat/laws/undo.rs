//! Removing a file undoes making and writing it.

use vstd::prelude::*;
use crate::errno::Errno;
use crate::exfat::dentry::DosTimestamp;
use crate::exfat::fat::ClusterID;
use crate::exfat::fs::io::file_written;
use crate::exfat::fs::namei::{created, looked_up, too_long, unlinked};
use crate::exfat::fs::FsState;
use crate::exfat::inode::InodeType;
use crate::exfat::laws::create::has_nul;
use crate::exfat::laws::dir::{dir_ok, dir_opens, name_of, names_differ};
use crate::exfat::laws::layout::Held;
use crate::exfat::laws::page::data_ok;
use crate::exfat::laws::rename::proper;
use crate::exfat::laws::write::{file_in, file_room};

verus! {

/// Bytes that are written to a file, and where.
pub struct Write {
    pub offset: int,
    pub bytes: Seq<u8>,
}

/// What writing to a file, one write after the other, makes of the file system, and
/// whether all writes succeed.
pub open spec fn all_written(s: FsState, c: int, writes: Seq<Write>) -> (FsState, bool)
    decreases writes.len(),
{
    if writes.len() == 0 {
        (s, true)
    } else {
        let (t, r) = file_written(s, c, writes[0].offset, writes[0].bytes);
        if r is Ok {
            all_written(t, c, writes.drop_first())
        } else {
            (t, false)
        }
    }
}

/// Whether there is room for everything that is written.
pub open spec fn writes_fit(s: FsState, xs: Seq<ClusterID>, writes: Seq<Write>) -> bool {
    forall|k: int|
        0 <= k < writes.len() ==> 0 <= (#[trigger] writes[k]).offset && file_room(
            s,
            xs,
            writes[k].offset + writes[k].bytes.len(),
        )
}

/// Whether all inodes have the names and kinds that they had.
pub open spec fn names_kept(s: FsState, t: FsState) -> bool {
    &&& t.nodes.len() == s.nodes.len()
    &&& forall|j: int|
        0 <= j < s.nodes.len() ==> (#[trigger] t.nodes[j]).name == s.nodes[j].name
            && t.nodes[j].inode_type == s.nodes[j].inode_type
}

/// Writing to a file changes no name.
proof fn lemma_write_keeps_names(s: FsState, c: int, offset: int, bytes: Seq<u8>)
    requires
        0 <= c < s.nodes.len(),
        s.opened_exist(),
        s.nodes[c].loaded,
    ensures
        names_kept(s, file_written(s, c, offset, bytes).0),
{
    let end = (offset + bytes.len()) as usize;
    crate::exfat::laws::file::lemma_inode_resized(s, c, end);
}

/// Writing to a file of a directory where there is room, again and again.
proof fn lemma_all_written(
    s: FsState,
    p: int,
    cs: Seq<ClusterID>,
    es: Seq<Held>,
    k: int,
    xs: Seq<ClusterID>,
    writes: Seq<Write>,
) -> (ys: Seq<ClusterID>)
    requires
        file_in(s, p, cs, es, k, xs),
        writes_fit(s, xs, writes),
    ensures
        ({
            let (t, done) = all_written(s, es[k].inode, writes);
            &&& done
            &&& file_in(t, p, cs, es, k, ys)
            &&& names_kept(s, t)
            &&& crate::exfat::bitmap::count_free(t.vol.bits) + ys.len()
                == crate::exfat::bitmap::count_free(s.vol.bits) + xs.len()
        }),
    decreases writes.len(),
{
    if writes.len() == 0 {
        xs
    } else {
        let c = es[k].inode;
        let first = writes[0];
        crate::exfat::laws::dir::lemma_dir_ok(s, p, cs, es);
        crate::exfat::laws::dir::lemma_dir_entry(s, p, cs, es, k);
        let ys = crate::exfat::laws::write::law_write_succeeds(
            s,
            p,
            cs,
            es,
            k,
            xs,
            first.offset,
            first.bytes,
        );
        lemma_write_keeps_names(s, c, first.offset, first.bytes);
        let t = file_written(s, c, first.offset, first.bytes).0;
        let rest = writes.drop_first();
        assert forall|j: int| 0 <= j < rest.len() implies 0 <= (#[trigger] rest[j]).offset
            && file_room(t, ys, rest[j].offset + rest[j].bytes.len()) by {
            assert(rest[j] == writes[j + 1]);
            assert(file_room(s, xs, writes[j + 1].offset + writes[j + 1].bytes.len()));
        }
        lemma_all_written(t, p, cs, es, k, ys, rest)
    }
}

/// Making a file, writing to it any number of times and removing it: the removal succeeds,
/// the name is not found, the directory holds what it held under the names that it had,
/// every other name gives what it gave before, and as many clusters are free as right
/// after the file was made.
pub proof fn law_unlink_undoes(
    o: FsState,
    s: FsState,
    i: int,
    cs: Seq<ClusterID>,
    es: Seq<Held>,
    name: Seq<char>,
    now: DosTimestamp,
    writes: Seq<Write>,
) -> (ds: Seq<ClusterID>)
    requires
        dir_opens(o, s, i, cs, es),
        names_differ(s, es),
        data_ok(s.vol),
        s.nodes.len() < usize::MAX,
        es.len() < u32::MAX,
        s.next_ino != crate::exfat::constants::EXFAT_ROOT_INO,
        proper(name),
        !has_nul(name),
        created(o, i, name, InodeType::File, now).1 is Ok,
        writes_fit(created(o, i, name, InodeType::File, now).0, Seq::empty(), writes),
    ensures
        ({
            let (t, c) = created(o, i, name, InodeType::File, now);
            let (u, done) = all_written(t, c->Ok_0 as int, writes);
            let (z, r) = unlinked(u, i, name);
            &&& done
            &&& r == Ok::<(), Errno>(())
            &&& dir_ok(z, i, cs + ds, es)
            &&& forall|k: int|
                0 <= k < es.len() ==> name_of(z.nodes[(#[trigger] es[k]).inode]) == name_of(
                    s.nodes[es[k].inode],
                )
            &&& looked_up(z, i, name).1 == Err::<usize, Errno>(Errno::ENOENT)
            &&& forall|other: Seq<char>|
                other != name && !too_long(other) ==> (#[trigger] looked_up(z, i, other)).1
                    == looked_up(o, i, other).1
            &&& crate::exfat::bitmap::count_free(z.vol.bits)
                == crate::exfat::bitmap::count_free(t.vol.bits)
        }),
{
    crate::exfat::laws::dir::lemma_dir_opens(o, s, i, cs, es);
    let (ds, p, e) = crate::exfat::laws::create::law_created(
        o,
        s,
        i,
        cs,
        es,
        name,
        InodeType::File,
        now,
    );
    crate::exfat::laws::create::law_created_is_found(o, s, i, cs, es, name, InodeType::File, now);
    let t = created(o, i, name, InodeType::File, now).0;
    let more = es.insert(p, e);
    let all = cs + ds;
    let none = Seq::<ClusterID>::empty();
    assert(more[p] == e);
    assert(file_in(t, i, all, more, p, none));
    let ys = lemma_all_written(t, i, all, more, p, none, writes);
    let u = all_written(t, e.inode, writes).0;
    assert(name_of(u.nodes[e.inode]) == name);
    lemma_names_differ_kept(t, u, i, all, more);
    crate::exfat::laws::dir::law_open_stays(u, i, all, more);
    crate::exfat::laws::remove::law_unlinked(u, u, i, all, more, p, ys);
    let z = unlinked(u, i, name).0;
    assert(more.remove(p) =~= es);
    assert forall|k: int| 0 <= k < es.len() implies name_of(z.nodes[(#[trigger] es[k]).inode])
        == name_of(s.nodes[es[k].inode]) by {
        crate::exfat::laws::dir::lemma_dir_entry(s, i, cs, es, k);
        crate::exfat::laws::dir::lemma_dir_entry(z, i, all, es, k);
        assert(z.nodes[es[k].inode] == u.nodes[es[k].inode]);
        assert(t.nodes[es[k].inode] == s.nodes[es[k].inode]);
    }
    assert forall|other: Seq<char>| other != name && !too_long(other) implies (
    #[trigger] looked_up(z, i, other)).1 == looked_up(o, i, other).1 by {
        crate::exfat::laws::dir::lemma_looked_up(u, i, all, more, other);
        crate::exfat::laws::dir::lemma_looked_up(t, i, all, more, other);
        lemma_found_alike(t, u, i, all, more, other);
        assert(looked_up(z, i, other).1 == looked_up(u, i, other).1);
        assert(looked_up(t, i, other).1 == looked_up(o, i, other).1);
    }
    ds
}

/// Names that differ still do where no name changes.
proof fn lemma_names_differ_kept(
    s: FsState,
    t: FsState,
    i: int,
    cs: Seq<ClusterID>,
    es: Seq<Held>,
)
    requires
        dir_ok(s, i, cs, es),
        names_differ(s, es),
        names_kept(s, t),
    ensures
        names_differ(t, es),
{
    assert forall|k: int| 0 <= k < es.len() implies name_of(t.nodes[(#[trigger] es[k]).inode])
        == name_of(s.nodes[es[k].inode]) by {
        crate::exfat::laws::dir::lemma_dir_entry(s, i, cs, es, k);
    }
}

/// A name is found among the same inodes where no name changes.
proof fn lemma_found_alike(
    s: FsState,
    t: FsState,
    i: int,
    cs: Seq<ClusterID>,
    es: Seq<Held>,
    name: Seq<char>,
)
    requires
        dir_ok(s, i, cs, es),
        names_differ(s, es),
        names_kept(s, t),
    ensures
        crate::exfat::laws::dir::found_in(t, es, name) == crate::exfat::laws::dir::found_in(
            s,
            es,
            name,
        ),
{
    assert forall|k: int| 0 <= k < es.len() implies name_of(t.nodes[(#[trigger] es[k]).inode])
        == name_of(s.nodes[es[k].inode]) by {
        crate::exfat::laws::dir::lemma_dir_entry(s, i, cs, es, k);
    }
    if exists|k: int| 0 <= k < es.len() && name_of(s.nodes[(#[trigger] es[k]).inode]) == name {
        let k = choose|k: int|
            0 <= k < es.len() && name_of(s.nodes[(#[trigger] es[k]).inode]) == name;
        lemma_names_differ_kept(s, t, i, cs, es);
        crate::exfat::laws::dir::lemma_found_in(s, es, k);
        crate::exfat::laws::dir::lemma_found_in(t, es, k);
    }
}

} // verus!
