//! When the file system is said to have done what the model says, and what the model holds
//! afterwards.

use vstd::prelude::*;
use crate::exfat::dentry::DosTimestamp;
use crate::exfat::fs::file::file_resized;
use crate::exfat::fs::io::{file_bytes_read, file_written};
use crate::exfat::fs::namei::{created, directory_removed, listed, looked_up, renamed, unlinked};
use crate::exfat::fs::FsState;
use crate::exfat::inode::InodeType;
use crate::random_test::dir::{dentry_executed, dir_executed};
use crate::random_test::file::file_executed;
use crate::random_test::{model_wf, DentryView, DirView, FileView, OperationView};

verus! {

/// Whether a model has a directory with the number `at`.
pub open spec fn has_dir(tree: Seq<DentryView>, at: int) -> bool {
    &&& model_wf(tree)
    &&& 0 <= at < tree.len() <= usize::MAX
    &&& tree[at] is Dir
}

/// Whether a directory of the model holds a file under a name.
pub open spec fn holds_file(tree: Seq<DentryView>, at: int, name: Seq<char>) -> bool {
    let d = tree[at]->Dir_0;
    d.sub_dirs.contains_key(name) && tree[d.sub_dirs[name] as int] is File
}

/// Whether a directory of the model holds a directory without any name under a name.
pub open spec fn holds_empty_dir(tree: Seq<DentryView>, at: int, name: Seq<char>) -> bool {
    let d = tree[at]->Dir_0;
    let there = tree[d.sub_dirs[name] as int];
    &&& d.sub_dirs.contains_key(name)
    &&& there is Dir
    &&& forall|other: Seq<char>| !(#[trigger] there->Dir_0.sub_dirs.contains_key(other))
}

/// Whether a directory of the model lost a name, and nothing else changed.
pub open spec fn lost_name(
    tree: Seq<DentryView>,
    tree1: Seq<DentryView>,
    at: int,
    name: Seq<char>,
) -> bool {
    let d = tree[at]->Dir_0;
    let d1 = tree1[at]->Dir_0;
    &&& tree1.len() == tree.len()
    &&& tree1[at] is Dir
    &&& forall|j: int| 0 <= j < tree.len() && j != at ==> #[trigger] tree1[j] == tree[j]
    &&& d1.sub_dirs == d.sub_dirs.remove(name)
    &&& d1 == (DirView { sub_names: d1.sub_names, sub_dirs: d1.sub_dirs, ..d })
    &&& !d1.sub_names.contains(name)
    &&& forall|k: int|
        0 <= k < d.sub_names.len() && #[trigger] d.sub_names[k] == name ==> d1.sub_names
            == d.sub_names.remove(k)
}

/// A directory of the model is empty exactly where it knows no name.
proof fn lemma_empty(x: DentryView)
    ensures
        crate::random_test::dir::is_empty_dir(x) <==> x is Dir && forall|other: Seq<char>|
            !(#[trigger] x->Dir_0.sub_dirs.contains_key(other)),
{
    if x is Dir {
        let dom = x->Dir_0.sub_dirs.dom();
        if dom.finite() && dom.len() == 0 {
            dom.lemma_len0_is_empty();
            assert forall|other: Seq<char>| !(#[trigger] x->Dir_0.sub_dirs.contains_key(other)) by {
                assert(!dom.contains(other));
            }
        }
        if forall|other: Seq<char>| !(#[trigger] x->Dir_0.sub_dirs.contains_key(other)) {
            assert forall|other: Seq<char>| !dom.contains(other) by {
                assert(!x->Dir_0.sub_dirs.contains_key(other));
            }
            assert(dom =~= Set::empty());
        }
    }
}

/// A directory of the model that forgets a name.
proof fn lemma_lost_name(tree: Seq<DentryView>, at: int, name: Seq<char>)
    requires
        has_dir(tree, at),
    ensures
        ({
            let d = tree[at]->Dir_0;
            let d1 = crate::random_test::dir::without_entry(d, name);
            lost_name(tree, tree.update(at, DentryView::Dir(d1)), at, name)
        }),
{
    let d = tree[at]->Dir_0;
    assert(tree[at].wf(at, tree.len() as int));
    let n = d.sub_names;
    let r = crate::random_test::names::without_name(n, name);
    if n.contains(name) {
        let k = choose|k: int| 0 <= k < n.len() && n[k] == name;
        assert forall|j: int| 0 <= j < k implies #[trigger] n[j] != name by {
            assert(n[j] != n[k]);
        }
        crate::random_test::names::law_without_name(n, name, k);
        assert(r == n.remove(k));
        if r.contains(name) {
            let x = choose|x: int| 0 <= x < r.len() && r[x] == name;
            let y = if x < k {
                x
            } else {
                x + 1
            };
            assert(n[y] == name && n[k] == name);
        }
        assert forall|j: int| 0 <= j < n.len() && #[trigger] n[j] == name implies r
            == n.remove(j) by {
            assert(j == k);
        }
    } else {
        assert forall|j: int| 0 <= j < n.len() implies #[trigger] n[j] != name by {
            if n[j] == name {
                assert(n.contains(name));
            }
        }
        crate::random_test::names::law_without_name(n, name, n.len() as int);
    }
}

/// Removing a file is said to agree exactly where it succeeds if and only if the model has a
/// file of that name; the model then forgets the name, and otherwise nothing changes in it.
pub proof fn law_unlink_verdict(
    tree: Seq<DentryView>,
    at: int,
    s: FsState,
    name: Seq<char>,
    now: DosTimestamp,
)
    requires
        has_dir(tree, at),
    ensures
        ({
            let (t, r) = unlinked(s, tree[at].inode(), name);
            let (tree1, s1, agrees) = dir_executed(tree, at, s, OperationView::Unlink(name), now);
            &&& agrees <==> (r is Ok <==> holds_file(tree, at, name))
            &&& s1 == t
            &&& if r is Ok && holds_file(tree, at, name) {
                lost_name(tree, tree1, at, name)
            } else {
                tree1 == tree
            }
        }),
{
    lemma_lost_name(tree, at, name);
}

/// Removing a directory is said to agree exactly where it succeeds if and only if the model
/// has an empty directory of that name; the model then forgets the name, and otherwise
/// nothing changes in it.
pub proof fn law_rmdir_verdict(
    tree: Seq<DentryView>,
    at: int,
    s: FsState,
    name: Seq<char>,
    now: DosTimestamp,
)
    requires
        has_dir(tree, at),
    ensures
        ({
            let (t, r) = directory_removed(s, tree[at].inode(), name);
            let (tree1, s1, agrees) = dir_executed(tree, at, s, OperationView::Rmdir(name), now);
            &&& agrees <==> (r is Ok <==> holds_empty_dir(tree, at, name))
            &&& s1 == t
            &&& if r is Ok && holds_empty_dir(tree, at, name) {
                lost_name(tree, tree1, at, name)
            } else {
                tree1 == tree
            }
        }),
{
    let d = tree[at]->Dir_0;
    lemma_empty(tree[d.sub_dirs[name] as int]);
    lemma_lost_name(tree, at, name);
}

/// Making something is said to agree exactly where it succeeds if and only if the model does
/// not have the name. The model then has one entry more, which is what was made, and knows it
/// by the name; otherwise nothing changes in it.
pub proof fn law_create_verdict(
    tree: Seq<DentryView>,
    at: int,
    s: FsState,
    name: Seq<char>,
    type_: InodeType,
    now: DosTimestamp,
)
    requires
        has_dir(tree, at),
    ensures
        ({
            let d = tree[at]->Dir_0;
            let (t, r) = created(s, d.inode, name, type_, now);
            let op = OperationView::Create(name, type_);
            let (tree1, s1, agrees) = dir_executed(tree, at, s, op, now);
            &&& agrees <==> (r is Ok <==> !d.sub_dirs.contains_key(name))
            &&& s1 == t
            &&& if r is Ok && !d.sub_dirs.contains_key(name) {
                let new = tree1[tree.len() as int];
                let d1 = tree1[at]->Dir_0;
                &&& tree1.len() == tree.len() + 1
                &&& forall|j: int| 0 <= j < tree.len() && j != at ==> #[trigger] tree1[j] == tree[j]
                &&& tree1[at] is Dir
                &&& d1.sub_dirs == d.sub_dirs.insert(name, tree.len() as usize)
                &&& d1.sub_names == d.sub_names.push(name)
                &&& d1 == (DirView { sub_names: d1.sub_names, sub_dirs: d1.sub_dirs, ..d })
                &&& new.inode() == r->Ok_0
                &&& new is File <==> type_ is File
                &&& new matches DentryView::File(f) ==> f.name == name && f.valid_len == 0
                    && f.contents.len() == 0
                &&& new matches DentryView::Dir(e) ==> e.name == name && e.sub_names.len() == 0 && (
                d.depth < u32::MAX ==> e.depth == d.depth + 1)
                &&& new matches DentryView::Dir(e) ==> forall|other: Seq<char>|
                    !(#[trigger] e.sub_dirs.contains_key(other))
            } else {
                tree1 == tree
            }
        }),
{
}

/// Looking something up is said to agree exactly where it is found if and only if the model
/// has the name; nothing changes in the model.
pub proof fn law_lookup_verdict(
    tree: Seq<DentryView>,
    at: int,
    s: FsState,
    name: Seq<char>,
    now: DosTimestamp,
)
    requires
        has_dir(tree, at),
    ensures
        ({
            let d = tree[at]->Dir_0;
            let (t, r) = looked_up(s, d.inode, name);
            let (tree1, s1, agrees) = dir_executed(tree, at, s, OperationView::Lookup(name), now);
            &&& agrees <==> (r is Ok <==> d.sub_dirs.contains_key(name))
            &&& s1 == t
            &&& tree1 == tree
        }),
{
}

/// Listing is said to agree exactly where it succeeds, tells as many names as the model has,
/// and lists the names of the model, each of them as often. The model keeps what it has; only
/// the order of its names may change.
pub proof fn law_readdir_verdict(
    tree: Seq<DentryView>,
    at: int,
    s: FsState,
    now: DosTimestamp,
)
    requires
        has_dir(tree, at),
    ensures
        ({
            let d = tree[at]->Dir_0;
            let (t, entries, r) = listed(s, d.inode, 0, Seq::empty());
            let names = Seq::new(entries.len(), |k: int| entries[k].name);
            let (tree1, s1, agrees) = dir_executed(tree, at, s, OperationView::Readdir(), now);
            let d1 = tree1[at]->Dir_0;
            &&& agrees <==> (r is Ok && r->Ok_0 == d.sub_dirs.dom().len() && entries.len()
                == d.sub_dirs.dom().len() && names.to_multiset() == d.sub_names.to_multiset())
            &&& s1 == t
            &&& tree1.len() == tree.len()
            &&& tree1[at] is Dir
            &&& forall|j: int| 0 <= j < tree.len() && j != at ==> #[trigger] tree1[j] == tree[j]
            &&& d1 == (DirView { sub_names: d1.sub_names, ..d })
            &&& d1.sub_names.to_multiset() == d.sub_names.to_multiset()
            &&& d1.sub_names == d.sub_names || crate::random_test::names::in_order(d1.sub_names)
            &&& agrees ==> crate::random_test::names::in_order(d1.sub_names)
        }),
{
    let d = tree[at]->Dir_0;
    let (t, entries, r) = listed(s, d.inode, 0, Seq::empty());
    let names = Seq::new(entries.len(), |k: int| entries[k].name);
    assert(names =~= crate::random_test::dir::names_of(entries));
    crate::random_test::names::law_sorted_same(names, d.sub_names);
    crate::random_test::names::law_sorted(d.sub_names);
}

/// Whether the model lets something be renamed: it has the old name, and what has the new
/// one, if anything, is a file as the other is, or both are directories and it is empty.
pub open spec fn lets_rename(
    tree: Seq<DentryView>,
    at: int,
    old_name: Seq<char>,
    new_name: Seq<char>,
) -> bool {
    let d = tree[at]->Dir_0;
    &&& d.sub_dirs.contains_key(old_name)
    &&& !d.sub_dirs.contains_key(new_name) || holds_file(tree, at, old_name) && holds_file(
        tree,
        at,
        new_name,
    ) || tree[d.sub_dirs[old_name] as int] is Dir && holds_empty_dir(tree, at, new_name)
}

/// Renaming is said to agree exactly where it succeeds if and only if the model lets it, and
/// what was renamed is found under the new name afterwards; a name that stays the same is
/// always renamed. The model then knows by the new name what it knew by the old one, with the
/// inode that was found; otherwise nothing changes in it.
pub proof fn law_rename_verdict(
    tree: Seq<DentryView>,
    at: int,
    s: FsState,
    old_name: Seq<char>,
    new_name: Seq<char>,
    now: DosTimestamp,
)
    requires
        has_dir(tree, at),
    ensures
        ({
            let d = tree[at]->Dir_0;
            let (t, r) = renamed(s, d.inode, old_name, d.inode, new_name, now);
            let (u, c) = looked_up(t, d.inode, new_name);
            let op = OperationView::Rename(old_name, new_name);
            let (tree1, s1, agrees) = dir_executed(tree, at, s, op, now);
            let lets = lets_rename(tree, at, old_name, new_name);
            &&& old_name == new_name ==> (agrees <==> r is Ok) && tree1 == tree && s1 == t
            &&& old_name != new_name ==> (agrees <==> (r is Ok <==> lets) && (lets ==> c is Ok))
            &&& old_name != new_name ==> s1 == (if lets && r is Ok {
                u
            } else {
                t
            })
            &&& old_name != new_name && !(agrees && lets) ==> tree1 == tree
            &&& old_name != new_name && agrees && lets ==> {
                let d1 = tree1[at]->Dir_0;
                let entry = d.sub_dirs[old_name] as int;
                &&& tree1.len() == tree.len()
                &&& tree1[at] is Dir
                &&& forall|j: int|
                    0 <= j < tree.len() && j != at && j != entry ==> #[trigger] tree1[j] == tree[j]
                &&& d1.sub_dirs == d.sub_dirs.remove(old_name).insert(new_name, entry as usize)
                &&& d1 == (DirView { sub_names: d1.sub_names, sub_dirs: d1.sub_dirs, ..d })
                &&& tree1[entry].inode() == c->Ok_0
                &&& tree[entry] matches DentryView::File(f) ==> tree1[entry] == DentryView::File(
                    FileView { name: new_name, inode: c->Ok_0 as int, ..f },
                )
                &&& tree[entry] matches DentryView::Dir(e) ==> tree1[entry] is Dir && ({
                    let e1 = tree1[entry]->Dir_0;
                    &&& e1 == (DirView { name: new_name, inode: c->Ok_0 as int, depth: e1.depth, ..e
                    })
                    &&& d.depth < u32::MAX ==> e1.depth == d.depth + 1
                })
            }
        }),
{
    let d = tree[at]->Dir_0;
    assert(tree[at].wf(at, tree.len() as int));
    if d.sub_dirs.contains_key(new_name) {
        lemma_empty(tree[d.sub_dirs[new_name] as int]);
    }
    let (tree1, s1, agrees) = dir_executed(
        tree,
        at,
        s,
        OperationView::Rename(old_name, new_name),
        now,
    );
    if old_name != new_name && agrees && lets_rename(tree, at, old_name, new_name) {
        let entry = d.sub_dirs[old_name];
        assert(tree1[at]->Dir_0.sub_dirs =~= d.sub_dirs.remove(old_name).insert(new_name, entry));
    }
}

/// What is done to files changes nothing in a directory.
pub proof fn law_not_for_directories(
    tree: Seq<DentryView>,
    at: int,
    s: FsState,
    op: OperationView,
    now: DosTimestamp,
)
    requires
        has_dir(tree, at),
        op is Read || op is Write || op is Resize,
    ensures
        dir_executed(tree, at, s, op, now) == (tree, s, true),
{
}

/// Reading a file is said to agree exactly where it succeeds and the buffer, which holds
/// zeros where nothing was read, begins with the bytes of the model that were asked for.
/// Nothing changes in the model.
pub proof fn law_read_verdict(
    f: FileView,
    s: FsState,
    offset: usize,
    len: usize,
    random: Seq<u8>,
)
    requires
        f.wf(),
    ensures
        ({
            let (t, r) = file_bytes_read(s, f.inode, offset as int, len as int);
            let op = OperationView::Read(offset, len);
            let (g, s1, rest, agrees) = file_executed(f, s, op, random);
            &&& agrees <==> r is Ok && forall|k: int|
                offset <= k < offset + len && k < f.valid_len ==> #[trigger] f.contents[k] == (if k
                    - offset < r->Ok_0.len() {
                    r->Ok_0[k - offset]
                } else {
                    0u8
                })
            &&& g == f
            &&& s1 == t
            &&& rest == random
        }),
{
    let (t, r) = file_bytes_read(s, f.inode, offset as int, len as int);
    if r is Ok {
        let start = crate::exfat::fs::io::lesser(offset as int, f.valid_len as int);
        let end = crate::exfat::fs::io::lesser(offset + len, f.valid_len as int);
        let bytes = r->Ok_0;
        let buf = crate::bytes::overwritten(
            crate::random_test::file::zeros(len as int),
            0,
            bytes,
        ).take(end - start);
        let want = f.contents.subrange(start, end);
        assert(buf.len() == want.len());
        if buf == want {
            assert forall|k: int|
                offset <= k < offset + len && k < f.valid_len implies #[trigger] f.contents[k] == (
            if k - offset < bytes.len() {
                bytes[k - offset]
            } else {
                0u8
            }) by {
                assert(want[k - offset] == f.contents[k]);
                assert(buf[k - offset] == want[k - offset]);
            }
        }
        if forall|k: int|
            offset <= k < offset + len && k < f.valid_len ==> #[trigger] f.contents[k] == (if k
                - offset < bytes.len() {
                bytes[k - offset]
            } else {
                0u8
            }) {
            assert forall|j: int| 0 <= j < buf.len() implies #[trigger] buf[j] == want[j] by {
                assert(want[j] == f.contents[start + j]);
            }
            assert(buf =~= want);
        }
    }
}

/// Writing to a file is said to agree exactly where it succeeds. The bytes are the next random
/// ones; they begin where the model has no byte that was written, if the place lies behind
/// that, so that no hole is left, and end where they are to end. The model then holds them,
/// and keeps its other bytes; where writing fails, nothing changes in it.
pub proof fn law_write_verdict(
    f: FileView,
    s: FsState,
    offset: usize,
    len: usize,
    random: Seq<u8>,
)
    requires
        f.wf(),
        offset + len <= usize::MAX,
    ensures
        ({
            let at = if offset <= f.valid_len {
                offset as int
            } else {
                f.valid_len as int
            };
            let end = offset + len;
            let bytes = Seq::new(
                (end - at) as nat,
                |k: int|
                    if k < random.len() {
                        random[k]
                    } else {
                        0u8
                    },
            );
            let (t, r) = file_written(s, f.inode, at, bytes);
            let op = OperationView::Write(offset, len);
            let (g, s1, rest, agrees) = file_executed(f, s, op, random);
            &&& agrees <==> r is Ok
            &&& s1 == t
            &&& rest == (if end - at <= random.len() {
                random.skip(end - at)
            } else {
                Seq::empty()
            })
            &&& r is Err ==> g == f
            &&& r is Ok ==> {
                &&& g.name == f.name
                &&& g.inode == f.inode
                &&& g.valid_len == (if end > f.valid_len {
                    end
                } else {
                    f.valid_len as int
                })
                &&& g.contents.len() == (if end > f.contents.len() {
                    end
                } else {
                    f.contents.len() as int
                })
                &&& forall|k: int| at <= k < end ==> #[trigger] g.contents[k] == bytes[k - at]
                &&& forall|k: int|
                    0 <= k < f.contents.len() && !(at <= k < end) ==> #[trigger] g.contents[k]
                        == f.contents[k]
            }
        }),
{
    let at = crate::random_test::file::write_start(f, offset as int);
    let n = offset + len - at;
    let bytes = Seq::new(
        n as nat,
        |k: int|
            if k < random.len() {
                random[k]
            } else {
                0u8
            },
    );
    assert(bytes =~= crate::random_test::random::random_bytes(random, n));
}

/// Resizing a file is said to agree exactly where it succeeds. The model then has as many
/// bytes, keeps those that are left and has zeros behind them, and none behind its end counts
/// as written; where resizing fails, nothing changes in it.
pub proof fn law_resize_verdict(f: FileView, s: FsState, new_size: usize, random: Seq<u8>)
    requires
        f.wf(),
    ensures
        ({
            let (t, r) = file_resized(s, f.inode, new_size);
            let op = OperationView::Resize(new_size);
            let (g, s1, rest, agrees) = file_executed(f, s, op, random);
            &&& agrees <==> r is Ok
            &&& s1 == t
            &&& rest == random
            &&& r is Err ==> g == f
            &&& r is Ok ==> {
                &&& g.name == f.name
                &&& g.inode == f.inode
                &&& g.contents.len() == new_size
                &&& f.valid_len <= new_size ==> g.valid_len == f.valid_len
                &&& f.valid_len > new_size ==> g.valid_len == new_size
                &&& forall|k: int|
                    0 <= k < new_size ==> #[trigger] g.contents[k] == (if k < f.contents.len() {
                        f.contents[k]
                    } else {
                        0u8
                    })
            }
        }),
{
}

/// What is done to directories changes nothing in a file.
pub proof fn law_not_for_files(f: FileView, s: FsState, op: OperationView, random: Seq<u8>)
    requires
        !(op is Read) && !(op is Write) && !(op is Resize),
    ensures
        file_executed(f, s, op, random) == (f, s, random, true),
{
}

/// What is done to an entry of the model is done to it as a file or as a directory, whichever
/// it is, and the verdict on that is the verdict.
pub proof fn law_verdict_of_entry(
    tree: Seq<DentryView>,
    at: int,
    s: FsState,
    op: OperationView,
    random: Seq<u8>,
    now: DosTimestamp,
)
    requires
        0 <= at < tree.len(),
    ensures
        ({
            let (tree1, s1, rest, agrees) = dentry_executed(tree, at, s, op, random, now);
            &&& tree[at] is Dir ==> (tree1, s1, agrees) == dir_executed(tree, at, s, op, now)
                && rest == random
            &&& tree[at] matches DentryView::File(f) ==> {
                let (g, t, left, ok) = file_executed(f, s, op, random);
                &&& agrees == ok
                &&& s1 == t
                &&& rest == left
                &&& tree1.len() == tree.len()
                &&& tree1[at] == DentryView::File(g)
                &&& forall|j: int| 0 <= j < tree.len() && j != at ==> #[trigger] tree1[j] == tree[j]
            }
        }),
{
}

} // verus!
