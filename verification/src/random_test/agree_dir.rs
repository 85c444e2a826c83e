//! The model and the file system agree on directories.

use vstd::prelude::*;
use crate::errno::Errno;
use crate::exfat::dentry::DosTimestamp;
use crate::exfat::fat::ClusterID;
use crate::exfat::fs::FsState;
use crate::exfat::inode::{InodeType, InodeView};
use crate::exfat::laws::chain::is_chain;
use crate::exfat::laws::create::{has_nul, has_room};
use crate::exfat::laws::dir::{dir_ok, name_of, names_differ};
use crate::exfat::laws::layout::Held;
use crate::exfat::laws::page::data_ok;
use crate::exfat::laws::remove::{off_limits, taken_out};
use crate::exfat::laws::rename::proper;
use crate::random_test::dir::{is_empty_dir, lemma_model_renamed_wf};
use crate::random_test::{DentryView, DirView, OperationView};

verus! {

/// Whether an inode is what a file or directory of the model says.
pub open spec fn child_agrees(x: DentryView, n: InodeView, inode: int) -> bool {
    &&& x.inode() == inode
    &&& x is File <==> n.inode_type is File
    &&& x is Dir ==> (is_empty_dir(x) <==> n.num_subdir == 0)
}

/// Whether a name is one that files and directories are given.
pub open spec fn plain(name: Seq<char>) -> bool {
    proper(name) && !has_nul(name) && 0 < name.len()
}

/// Whether a directory of the model knows an inode that a directory holds.
pub open spec fn known(tree: Seq<DentryView>, d: DirView, s: FsState, e: Held) -> bool {
    let name = name_of(s.nodes[e.inode]);
    &&& plain(name)
    &&& d.sub_dirs.contains_key(name)
    &&& child_agrees(tree[d.sub_dirs[name] as int], s.nodes[e.inode], e.inode)
}

/// Whether one of the inodes `es` has a name.
pub open spec fn one_has(s: FsState, es: Seq<Held>, name: Seq<char>) -> bool {
    exists|k: int| 0 <= k < es.len() && name_of(s.nodes[(#[trigger] es[k]).inode]) == name
}

/// Whether the inodes `es` that a directory holds are those that a directory of the model
/// knows.
pub open spec fn same_children(
    tree: Seq<DentryView>,
    d: DirView,
    s: FsState,
    es: Seq<Held>,
) -> bool {
    &&& forall|k: int| 0 <= k < es.len() ==> known(tree, d, s, #[trigger] es[k])
    &&& forall|name: Seq<char>| #[trigger] d.sub_dirs.contains_key(name) ==> one_has(s, es, name)
}

/// Whether the directory with the number `at` of a model and the directory of the file
/// system that it is held against, which has the clusters `cs`, hold the same: the inodes
/// `es`.
pub open spec fn dir_agrees(
    tree: Seq<DentryView>,
    at: int,
    s: FsState,
    cs: Seq<ClusterID>,
    es: Seq<Held>,
) -> bool {
    let d = tree[at]->Dir_0;
    &&& crate::random_test::model_wf(tree)
    &&& 0 <= at < tree.len() < usize::MAX
    &&& tree[at] is Dir
    &&& dir_ok(s, d.inode, cs, es)
    &&& names_differ(s, es)
    &&& same_children(tree, d, s, es)
}

/// The model of which nothing is known but the root agrees with a file system whose root
/// holds nothing.
pub proof fn law_new_model_agrees(tree: Seq<DentryView>, s: FsState, cs: Seq<ClusterID>)
    requires
        tree.len() == 1,
        tree[0] is Dir,
        tree[0]->Dir_0.sub_names == Seq::<Seq<char>>::empty(),
        tree[0]->Dir_0.sub_dirs == crate::random_test::sub_dirs::no_entries(),
        dir_ok(s, tree[0]->Dir_0.inode, cs, Seq::empty()),
    ensures
        dir_agrees(tree, 0, s, cs, Seq::empty()),
{
}

/// The names of inodes.
spec fn names_in(s: FsState, es: Seq<Held>) -> Seq<Seq<char>> {
    Seq::new(es.len(), |k: int| name_of(s.nodes[es[k].inode]))
}

/// A directory of the model and a directory that hold the same have the same names.
proof fn lemma_same_names(
    tree: Seq<DentryView>,
    at: int,
    s: FsState,
    cs: Seq<ClusterID>,
    es: Seq<Held>,
)
    requires
        dir_agrees(tree, at, s, cs, es),
    ensures
        ({
            let d = tree[at]->Dir_0;
            &&& names_in(s, es).no_duplicates()
            &&& d.sub_names.no_duplicates()
            &&& forall|name: Seq<char>|
                d.sub_names.contains(name) <==> #[trigger] names_in(s, es).contains(name)
            &&& d.sub_dirs.dom().finite()
            &&& d.sub_dirs.dom().len() == es.len()
        }),
{
    let d = tree[at]->Dir_0;
    let names = names_in(s, es);
    assert(tree[at].wf(at, tree.len() as int));
    assert forall|name: Seq<char>| d.sub_names.contains(name) <==> #[trigger] names.contains(
        name,
    ) by {
        assert(d.sub_names.contains(name) <==> d.sub_dirs.contains_key(name));
        if d.sub_dirs.contains_key(name) {
            let k = choose|k: int|
                0 <= k < es.len() && name_of(s.nodes[(#[trigger] es[k]).inode]) == name;
            assert(names[k] == name);
        }
        if names.contains(name) {
            let k = choose|k: int| 0 <= k < names.len() && names[k] == name;
            assert(known(tree, d, s, es[k]));
        }
    }
    assert forall|a: int, b: int| 0 <= a < names.len() && 0 <= b < names.len() && a != b implies
        names[a] != names[b] by {
        if a < b {
            assert(name_of(s.nodes[es[a].inode]) != name_of(s.nodes[es[b].inode]));
        } else {
            assert(name_of(s.nodes[es[b].inode]) != name_of(s.nodes[es[a].inode]));
        }
    }
    names.unique_seq_to_set();
    assert(d.sub_dirs.dom() =~= names.to_set()) by {
        assert forall|name: Seq<char>| d.sub_dirs.dom().contains(name)
            == names.to_set().contains(name) by {
            assert(d.sub_names.contains(name) <==> d.sub_dirs.contains_key(name));
            assert(d.sub_names.contains(name) <==> names.contains(name));
        }
    }
}

/// Looking a name up gives what the model says.
pub proof fn law_lookup_agrees(
    tree: Seq<DentryView>,
    at: int,
    s: FsState,
    cs: Seq<ClusterID>,
    es: Seq<Held>,
    name: Seq<char>,
    now: DosTimestamp,
)
    requires
        dir_agrees(tree, at, s, cs, es),
    ensures
        ({
            let (tree1, t, agrees) = crate::random_test::dir::dir_executed(
                tree,
                at,
                s,
                OperationView::Lookup(name),
                now,
            );
            &&& agrees
            &&& tree1 == tree
            &&& dir_agrees(tree, at, t, cs, es)
        }),
{
    let d = tree[at]->Dir_0;
    crate::exfat::laws::dir::lemma_dir_ok(s, d.inode, cs, es);
    if crate::exfat::fs::namei::too_long(name) {
        if d.sub_dirs.contains_key(name) {
            let k = choose|k: int|
                0 <= k < es.len() && name_of(s.nodes[(#[trigger] es[k]).inode]) == name;
            assert(known(tree, d, s, es[k]));
        }
    } else {
        crate::exfat::laws::dir::lemma_looked_up(s, d.inode, cs, es, name);
        let t = crate::exfat::fs::namei::looked_up(s, d.inode, name).0;
        lemma_only_volume(tree, at, s, t, cs, es);
        if one_has(s, es, name) {
            let k = choose|k: int|
                0 <= k < es.len() && name_of(s.nodes[(#[trigger] es[k]).inode]) == name;
            assert(known(tree, d, s, es[k]));
        }
    }
}

/// A change of the volume alone changes nothing that the model knows.
proof fn lemma_only_volume(
    tree: Seq<DentryView>,
    at: int,
    s: FsState,
    t: FsState,
    cs: Seq<ClusterID>,
    es: Seq<Held>,
)
    requires
        dir_agrees(tree, at, s, cs, es),
        t == s.with_vol(t.vol),
        dir_ok(t, tree[at]->Dir_0.inode, cs, es),
    ensures
        dir_agrees(tree, at, t, cs, es),
{
    let d = tree[at]->Dir_0;
    assert forall|k: int| 0 <= k < es.len() implies known(tree, d, t, #[trigger] es[k]) by {
        assert(known(tree, d, s, es[k]));
    }
    assert forall|name: Seq<char>| #[trigger] d.sub_dirs.contains_key(name) implies one_has(
        t,
        es,
        name,
    ) by {
        let k = choose|k: int|
            0 <= k < es.len() && name_of(s.nodes[(#[trigger] es[k]).inode]) == name;
        assert(name_of(t.nodes[es[k].inode]) == name);
    }
}

/// Listing a directory gives the names that the model says.
pub proof fn law_readdir_agrees(
    tree: Seq<DentryView>,
    at: int,
    s: FsState,
    cs: Seq<ClusterID>,
    es: Seq<Held>,
    now: DosTimestamp,
)
    requires
        dir_agrees(tree, at, s, cs, es),
    ensures
        ({
            let (tree1, t, agrees) = crate::random_test::dir::dir_executed(
                tree,
                at,
                s,
                OperationView::Readdir(),
                now,
            );
            &&& agrees
            &&& dir_agrees(tree1, at, t, cs, es)
        }),
{
    let d = tree[at]->Dir_0;
    crate::exfat::laws::dir::lemma_dir_ok(s, d.inode, cs, es);
    crate::exfat::laws::dir::law_listed(s, d.inode, cs, es, 0, Seq::empty());
    let (t, entries, r) = crate::exfat::fs::namei::listed(s, d.inode, 0, Seq::empty());
    assert(es.skip(0) =~= es);
    assert(entries =~= crate::exfat::laws::dir::listing(s, es));
    lemma_same_names(tree, at, s, cs, es);
    assert(crate::random_test::dir::names_of(entries) =~= names_in(s, es));
    crate::random_test::names::law_sorted_alike(d.sub_names, names_in(s, es));
    lemma_only_volume(tree, at, s, t, cs, es);
    let op = OperationView::Readdir();
    crate::random_test::dir::law_model_stays_wf(tree, at, s, op, now);
    let tree1 = crate::random_test::dir::dir_executed(tree, at, s, op, now).0;
    assert(tree[at].wf(at, tree.len() as int));
    lemma_model_changed(tree, tree1, at, t, es);
}

/// A directory of the model that knows the same entries still knows what a directory holds.
proof fn lemma_model_changed(
    tree: Seq<DentryView>,
    tree1: Seq<DentryView>,
    at: int,
    s: FsState,
    es: Seq<Held>,
)
    requires
        0 <= at < tree.len(),
        tree[at] is Dir,
        tree1[at] is Dir,
        tree1[at]->Dir_0.sub_dirs == tree[at]->Dir_0.sub_dirs,
        same_children(tree, tree[at]->Dir_0, s, es),
        forall|name: Seq<char>| #[trigger]
            tree[at]->Dir_0.sub_dirs.contains_key(name) ==> tree1[tree[at]->Dir_0.sub_dirs[name] as int]
                == tree[tree[at]->Dir_0.sub_dirs[name] as int],
    ensures
        same_children(tree1, tree1[at]->Dir_0, s, es),
{
    let d = tree[at]->Dir_0;
    let d1 = tree1[at]->Dir_0;
    assert forall|k: int| 0 <= k < es.len() implies known(tree1, d1, s, #[trigger] es[k]) by {
        assert(known(tree, d, s, es[k]));
        assert(d.sub_dirs.contains_key(name_of(s.nodes[es[k].inode])));
    }
    assert forall|name: Seq<char>| #[trigger] d1.sub_dirs.contains_key(name) implies one_has(
        s,
        es,
        name,
    ) by {
        assert(d.sub_dirs.contains_key(name));
    }
}

/// A directory that holds one inode more, and a directory of the model that knows all of
/// them.
proof fn lemma_child_put(
    tree: Seq<DentryView>,
    d: DirView,
    s: FsState,
    es: Seq<Held>,
    p: int,
    e: Held,
)
    requires
        0 <= p <= es.len(),
        known(tree, d, s, e),
        forall|k: int| 0 <= k < es.len() ==> known(tree, d, s, #[trigger] es[k]),
        forall|name: Seq<char>| #[trigger]
            d.sub_dirs.contains_key(name) ==> name == name_of(s.nodes[e.inode]) || one_has(
                s,
                es,
                name,
            ),
    ensures
        same_children(tree, d, s, es.insert(p, e)),
{
    let fs = es.insert(p, e);
    assert(fs[p] == e);
    assert forall|k: int| 0 <= k < fs.len() implies known(tree, d, s, #[trigger] fs[k]) by {
        if k < p {
            assert(fs[k] == es[k]);
        } else if k > p {
            assert(fs[k] == es[k - 1]);
        }
    }
    assert forall|name: Seq<char>| #[trigger] d.sub_dirs.contains_key(name) implies one_has(
        s,
        fs,
        name,
    ) by {
        if name == name_of(s.nodes[e.inode]) {
            assert(name_of(s.nodes[fs[p].inode]) == name);
        } else {
            let k = choose|k: int|
                0 <= k < es.len() && name_of(s.nodes[(#[trigger] es[k]).inode]) == name;
            let j = if k < p {
                k
            } else {
                k + 1
            };
            assert(fs[j] == es[k]);
        }
    }
}

/// A directory that holds one inode less, and a directory of the model that knows the
/// others.
proof fn lemma_child_cut(tree: Seq<DentryView>, d: DirView, s: FsState, es: Seq<Held>, k: int)
    requires
        0 <= k < es.len(),
        forall|j: int| 0 <= j < es.len() && j != k ==> known(tree, d, s, #[trigger] es[j]),
        forall|name: Seq<char>| #[trigger]
            d.sub_dirs.contains_key(name) ==> one_other_has(s, es, k, name),
    ensures
        same_children(tree, d, s, es.remove(k)),
{
    let fs = es.remove(k);
    assert forall|j: int| 0 <= j < fs.len() implies known(tree, d, s, #[trigger] fs[j]) by {
        if j < k {
            assert(fs[j] == es[j]);
        } else {
            assert(fs[j] == es[j + 1]);
        }
    }
    assert forall|name: Seq<char>| #[trigger] d.sub_dirs.contains_key(name) implies one_has(
        s,
        fs,
        name,
    ) by {
        let x = choose|x: int|
            0 <= x < es.len() && x != k && name_of(s.nodes[(#[trigger] es[x]).inode]) == name;
        let j = if x < k {
            x
        } else {
            x - 1
        };
        assert(fs[j] == es[x]);
    }
}

/// Whether one of the inodes `es`, but not the one with the number `k`, has a name.
pub open spec fn one_other_has(s: FsState, es: Seq<Held>, k: int, name: Seq<char>) -> bool {
    exists|x: int|
        0 <= x < es.len() && x != k && name_of(s.nodes[(#[trigger] es[x]).inode]) == name
}

/// What a directory knows of an inode whose state stays the same it still knows where it
/// keeps what it has under the name of the inode.
proof fn lemma_still_known(
    tree: Seq<DentryView>,
    d: DirView,
    s: FsState,
    tree1: Seq<DentryView>,
    d1: DirView,
    t: FsState,
    e: Held,
)
    requires
        known(tree, d, s, e),
        name_of(t.nodes[e.inode]) == name_of(s.nodes[e.inode]),
        t.nodes[e.inode].inode_type == s.nodes[e.inode].inode_type,
        t.nodes[e.inode].num_subdir == s.nodes[e.inode].num_subdir,
        ({
            let name = name_of(s.nodes[e.inode]);
            &&& d1.sub_dirs.contains_key(name)
            &&& d1.sub_dirs[name] == d.sub_dirs[name]
            &&& tree1[d.sub_dirs[name] as int] == tree[d.sub_dirs[name] as int]
        }),
    ensures
        known(tree1, d1, t, e),
{
}

/// Making a file or directory does what the model says: under a name that is there it
/// fails, and under a new one it succeeds where there is room.
pub proof fn law_create_agrees(
    tree: Seq<DentryView>,
    at: int,
    s: FsState,
    cs: Seq<ClusterID>,
    es: Seq<Held>,
    name: Seq<char>,
    type_: InodeType,
    now: DosTimestamp,
) -> (r: (Seq<ClusterID>, Seq<Held>))
    requires
        dir_agrees(tree, at, s, cs, es),
        plain(name),
        tree.len() + 1 < usize::MAX,
        s.nodes.len() < usize::MAX,
        es.len() < u32::MAX,
        s.next_ino != crate::exfat::constants::EXFAT_ROOT_INO,
        has_room(s, tree[at]->Dir_0.inode, name),
    ensures
        ({
            let (tree1, t, agrees) = crate::random_test::dir::dir_executed(
                tree,
                at,
                s,
                OperationView::Create(name, type_),
                now,
            );
            &&& agrees
            &&& dir_agrees(tree1, at, t, r.0, r.1)
        }),
{
    let d = tree[at]->Dir_0;
    let op = OperationView::Create(name, type_);
    crate::exfat::laws::dir::lemma_dir_ok(s, d.inode, cs, es);
    assert(tree[at].wf(at, tree.len() as int));
    let (t, c) = crate::exfat::fs::namei::created(s, d.inode, name, type_, now);
    if d.sub_dirs.contains_key(name) {
        let k = choose|k: int|
            0 <= k < es.len() && name_of(s.nodes[(#[trigger] es[k]).inode]) == name;
        crate::exfat::laws::dir::law_open_stays(s, d.inode, cs, es);
        crate::exfat::laws::create::law_create_existing(s, s, d.inode, cs, es, k, type_, now);
        lemma_only_volume(tree, at, s, t, cs, es);
        (cs, es)
    } else {
        assert forall|k: int| 0 <= k < es.len() implies name_of(
            s.nodes[(#[trigger] es[k]).inode],
        ) != name by {
            assert(known(tree, d, s, es[k]));
        }
        crate::exfat::laws::dir::law_open_stays(s, d.inode, cs, es);
        crate::exfat::laws::create::law_create_succeeds(s, s, d.inode, cs, es, name, type_, now);
        let (ds, p, e) = crate::exfat::laws::create::law_created(
            s,
            s,
            d.inode,
            cs,
            es,
            name,
            type_,
            now,
        );
        crate::random_test::dir::law_model_stays_wf(tree, at, s, op, now);
        let tree1 = crate::random_test::dir::dir_executed(tree, at, s, op, now).0;
        let d1 = tree1[at]->Dir_0;
        assert(d1 == crate::random_test::dir::with_entry(d, name, tree.len() as usize));
        assert forall|k: int| 0 <= k < es.len() implies known(
            tree1,
            d1,
            t,
            #[trigger] es[k],
        ) by {
            assert(known(tree, d, s, es[k]));
            crate::exfat::laws::dir::lemma_dir_entry(s, d.inode, cs, es, k);
            lemma_still_known(tree, d, s, tree1, d1, t, es[k]);
        }
        assert(known(tree1, d1, t, e));
        assert forall|other: Seq<char>| #[trigger]
            d1.sub_dirs.contains_key(other) implies other == name || one_has(t, es, other) by {
            if other != name {
                assert(d.sub_dirs.contains_key(other));
                let k = choose|k: int|
                    0 <= k < es.len() && name_of(s.nodes[(#[trigger] es[k]).inode]) == other;
                crate::exfat::laws::dir::lemma_dir_entry(s, d.inode, cs, es, k);
                assert(name_of(t.nodes[es[k].inode]) == other);
            }
        }
        lemma_child_put(tree1, d1, t, es, p, e);
        (cs + ds, es.insert(p, e))
    }
}

/// A directory from which an inode was taken out, and a directory of the model from which
/// its name was taken.
proof fn lemma_taken_out_agrees(
    tree: Seq<DentryView>,
    tree1: Seq<DentryView>,
    at: int,
    s: FsState,
    t: FsState,
    cs: Seq<ClusterID>,
    es: Seq<Held>,
    k: int,
    xs: Seq<ClusterID>,
)
    requires
        dir_agrees(tree, at, s, cs, es),
        0 <= k < es.len(),
        taken_out(s, t, tree[at]->Dir_0.inode, cs, es, k, xs),
        names_differ(t, es.remove(k)),
        tree1 == tree.update(
            at,
            DentryView::Dir(
                crate::random_test::dir::without_entry(
                    tree[at]->Dir_0,
                    name_of(s.nodes[es[k].inode]),
                ),
            ),
        ),
        crate::random_test::model_wf(tree1),
    ensures
        dir_agrees(tree1, at, t, cs, es.remove(k)),
{
    let d = tree[at]->Dir_0;
    let d1 = tree1[at]->Dir_0;
    let name = name_of(s.nodes[es[k].inode]);
    assert(tree[at].wf(at, tree.len() as int));
    assert forall|j: int| 0 <= j < es.len() && j != k implies known(
        tree1,
        d1,
        t,
        #[trigger] es[j],
    ) && t.nodes[es[j].inode] == s.nodes[es[j].inode] by {
        assert(known(tree, d, s, es[j]));
        crate::exfat::laws::dir::lemma_dir_entry(s, d.inode, cs, es, j);
        crate::exfat::laws::remove::lemma_inodes_differ(s, d.inode, cs, es, j, k);
        if j < k {
            assert(name_of(s.nodes[es[j].inode]) != name);
        } else {
            assert(name != name_of(s.nodes[es[j].inode]));
        }
        lemma_still_known(tree, d, s, tree1, d1, t, es[j]);
    }
    assert forall|other: Seq<char>| #[trigger]
        d1.sub_dirs.contains_key(other) implies one_other_has(t, es, k, other) by {
        assert(d.sub_dirs.contains_key(other));
        let x = choose|x: int|
            0 <= x < es.len() && name_of(s.nodes[(#[trigger] es[x]).inode]) == other;
        assert(known(tree1, d1, t, es[x]));
        assert(name_of(t.nodes[es[x].inode]) == other);
    }
    lemma_child_cut(tree1, d1, t, es, k);
}

/// Looking for a name that is not in the model, in order to do something to it, fails.
proof fn lemma_name_unknown(
    tree: Seq<DentryView>,
    at: int,
    s: FsState,
    cs: Seq<ClusterID>,
    es: Seq<Held>,
    name: Seq<char>,
)
    requires
        dir_agrees(tree, at, s, cs, es),
        !tree[at]->Dir_0.sub_dirs.contains_key(name),
    ensures
        ({
            let (t, r) = crate::exfat::fs::dir::name_found(s, tree[at]->Dir_0.inode, name);
            &&& r is Err
            &&& dir_agrees(tree, at, t, cs, es)
        }),
{
    let d = tree[at]->Dir_0;
    assert forall|k: int| 0 <= k < es.len() implies name_of(s.nodes[(#[trigger] es[k]).inode])
        != name by {
        assert(known(tree, d, s, es[k]));
    }
    crate::exfat::laws::dir::law_open_stays(s, d.inode, cs, es);
    crate::exfat::laws::dir::law_name_found(s, s, d.inode, cs, es, name);
    let t = crate::exfat::fs::dir::name_found(s, d.inode, name).0;
    lemma_only_volume(tree, at, s, t, cs, es);
}

/// Whether what is to be removed under a name, where there is something, has the clusters
/// `xs`, and they are not those of the directory.
pub open spec fn removable(
    s: FsState,
    i: int,
    cs: Seq<ClusterID>,
    es: Seq<Held>,
    name: Seq<char>,
    xs: Seq<ClusterID>,
) -> bool {
    forall|k: int|
        0 <= k < es.len() && name_of(s.nodes[(#[trigger] es[k]).inode]) == name ==> is_chain(
            s.vol,
            s.nodes[es[k].inode].start_chain,
            xs,
        ) && off_limits(s, i, cs, xs)
}

/// Removing a file does what the model says: it succeeds where the name is that of a file,
/// and fails where it is not.
pub proof fn law_unlink_agrees(
    tree: Seq<DentryView>,
    at: int,
    s: FsState,
    cs: Seq<ClusterID>,
    es: Seq<Held>,
    name: Seq<char>,
    xs: Seq<ClusterID>,
    now: DosTimestamp,
) -> (fs: Seq<Held>)
    requires
        dir_agrees(tree, at, s, cs, es),
        data_ok(s.vol),
        removable(s, tree[at]->Dir_0.inode, cs, es, name, xs),
    ensures
        ({
            let (tree1, t, agrees) = crate::random_test::dir::dir_executed(
                tree,
                at,
                s,
                OperationView::Unlink(name),
                now,
            );
            &&& agrees
            &&& dir_agrees(tree1, at, t, cs, fs)
        }),
{
    let d = tree[at]->Dir_0;
    let op = OperationView::Unlink(name);
    crate::exfat::laws::dir::lemma_dir_ok(s, d.inode, cs, es);
    crate::random_test::dir::law_model_stays_wf(tree, at, s, op, now);
    let (tree1, t, agrees) = crate::random_test::dir::dir_executed(tree, at, s, op, now);
    if !d.sub_dirs.contains_key(name) {
        lemma_name_unknown(tree, at, s, cs, es, name);
        es
    } else {
        let k = choose|k: int|
            0 <= k < es.len() && name_of(s.nodes[(#[trigger] es[k]).inode]) == name;
        assert(known(tree, d, s, es[k]));
        if s.nodes[es[k].inode].inode_type is File {
            crate::exfat::laws::dir::law_open_stays(s, d.inode, cs, es);
            crate::exfat::laws::remove::law_unlinked(s, s, d.inode, cs, es, k, xs);
            lemma_taken_out_agrees(tree, tree1, at, s, t, cs, es, k, xs);
            es.remove(k)
        } else {
            crate::exfat::laws::dir::law_open_stays(s, d.inode, cs, es);
            crate::exfat::laws::refuse::law_wrong_kind_refused(s, s, d.inode, cs, es, k);
            lemma_only_volume(tree, at, s, t, cs, es);
            es
        }
    }
}

/// Removing a directory does what the model says: it succeeds where the name is that of
/// an empty directory, and fails where it is not.
pub proof fn law_rmdir_agrees(
    tree: Seq<DentryView>,
    at: int,
    s: FsState,
    cs: Seq<ClusterID>,
    es: Seq<Held>,
    name: Seq<char>,
    xs: Seq<ClusterID>,
    now: DosTimestamp,
) -> (fs: Seq<Held>)
    requires
        dir_agrees(tree, at, s, cs, es),
        data_ok(s.vol),
        removable(s, tree[at]->Dir_0.inode, cs, es, name, xs),
    ensures
        ({
            let (tree1, t, agrees) = crate::random_test::dir::dir_executed(
                tree,
                at,
                s,
                OperationView::Rmdir(name),
                now,
            );
            &&& agrees
            &&& dir_agrees(tree1, at, t, cs, fs)
        }),
{
    let d = tree[at]->Dir_0;
    let op = OperationView::Rmdir(name);
    crate::exfat::laws::dir::lemma_dir_ok(s, d.inode, cs, es);
    crate::random_test::dir::law_model_stays_wf(tree, at, s, op, now);
    let (tree1, t, agrees) = crate::random_test::dir::dir_executed(tree, at, s, op, now);
    if !d.sub_dirs.contains_key(name) {
        lemma_name_unknown(tree, at, s, cs, es, name);
        es
    } else {
        let k = choose|k: int|
            0 <= k < es.len() && name_of(s.nodes[(#[trigger] es[k]).inode]) == name;
        assert(known(tree, d, s, es[k]));
        let n = s.nodes[es[k].inode];
        if n.inode_type is Dir && n.num_subdir == 0 {
            crate::exfat::laws::dir::law_open_stays(s, d.inode, cs, es);
            crate::exfat::laws::remove::law_directory_removed(s, s, d.inode, cs, es, k, xs);
            lemma_taken_out_agrees(tree, tree1, at, s, t, cs, es, k, xs);
            es.remove(k)
        } else {
            crate::exfat::laws::dir::law_open_stays(s, d.inode, cs, es);
            crate::exfat::laws::refuse::law_wrong_kind_refused(s, s, d.inode, cs, es, k);
            lemma_only_volume(tree, at, s, t, cs, es);
            es
        }
    }
}

/// The model after something got another name in the directory with the number `at`, in
/// place of what had this name before or not.
proof fn lemma_rename_agrees(
    tree: Seq<DentryView>,
    at: int,
    s: FsState,
    f: FsState,
    cs: Seq<ClusterID>,
    es: Seq<Held>,
    k: int,
    new_name: Seq<char>,
    ct: Seq<ClusterID>,
    left: Seq<Held>,
    p: int,
    e: Held,
)
    requires
        dir_agrees(tree, at, s, cs, es),
        0 <= k < es.len(),
        plain(new_name),
        new_name != name_of(s.nodes[es[k].inode]),
        e.inode == es[k].inode,
        name_of(f.nodes[e.inode]) == new_name,
        crate::exfat::laws::rename::kept_in_move(s.nodes[e.inode], f.nodes[e.inode]),
        0 <= p <= left.len(),
        dir_ok(f, tree[at]->Dir_0.inode, ct, left.insert(p, e)),
        names_differ(f, left.insert(p, e)),
        forall|z: int| 0 <= z < left.len() ==> stays(s, f, es, k, new_name, #[trigger] left[z]),
        forall|y: int|
            0 <= y < es.len() && y != k && name_of(s.nodes[(#[trigger] es[y]).inode]) != new_name
                ==> left.contains(es[y]),
        crate::random_test::model_wf(
            crate::random_test::dir::model_renamed(
                tree,
                at,
                name_of(s.nodes[es[k].inode]),
                new_name,
                tree[at]->Dir_0.sub_dirs.contains_key(new_name),
                e.inode,
            ),
        ),
    ensures
        dir_agrees(
            crate::random_test::dir::model_renamed(
                tree,
                at,
                name_of(s.nodes[es[k].inode]),
                new_name,
                tree[at]->Dir_0.sub_dirs.contains_key(new_name),
                e.inode,
            ),
            at,
            f,
            ct,
            left.insert(p, e),
        ),
{
    let d = tree[at]->Dir_0;
    let old_name = name_of(s.nodes[es[k].inode]);
    let exist = d.sub_dirs.contains_key(new_name);
    let tree1 = crate::random_test::dir::model_renamed(
        tree,
        at,
        old_name,
        new_name,
        exist,
        e.inode,
    );
    assert(tree[at].wf(at, tree.len() as int));
    assert(known(tree, d, s, es[k]));
    let entry = d.sub_dirs[old_name];
    let d1 = tree1[at]->Dir_0;
    assert(d1.sub_dirs =~= d.sub_dirs.remove(old_name).insert(new_name, entry));
    assert(known(tree1, d1, f, e));
    assert forall|z: int| 0 <= z < left.len() implies known(tree1, d1, f, #[trigger] left[z]) by {
        assert(stays(s, f, es, k, new_name, left[z]));
        let y = choose|y: int|
            0 <= y < es.len() && y != k && (#[trigger] es[y]) == left[z] && name_of(
                s.nodes[es[y].inode],
            ) != new_name;
        assert(known(tree, d, s, es[y]));
        crate::exfat::laws::remove::lemma_inodes_differ(s, d.inode, cs, es, y, k);
        if y < k {
            assert(name_of(s.nodes[es[y].inode]) != name_of(s.nodes[es[k].inode]));
        } else {
            assert(name_of(s.nodes[es[k].inode]) != name_of(s.nodes[es[y].inode]));
        }
        lemma_still_known(tree, d, s, tree1, d1, f, left[z]);
    }
    assert forall|name: Seq<char>| #[trigger] d1.sub_dirs.contains_key(name) implies name
        == new_name || one_has(f, left, name) by {
        if name != new_name {
            assert(d.sub_dirs.contains_key(name));
            let y = choose|y: int|
                0 <= y < es.len() && name_of(s.nodes[(#[trigger] es[y]).inode]) == name;
            assert(left.contains(es[y]));
            let z = choose|z: int| 0 <= z < left.len() && left[z] == es[y];
            assert(stays(s, f, es, k, new_name, left[z]));
            assert(name_of(f.nodes[left[z].inode]) == name);
        }
    }
    lemma_child_put(tree1, d1, f, left, p, e);
}

/// Whether an inode is one of the inodes `es`, but neither the one with the number `k` nor
/// one with the new name, and the model sees no change of it.
pub open spec fn stays(
    s: FsState,
    f: FsState,
    es: Seq<Held>,
    k: int,
    new_name: Seq<char>,
    e: Held,
) -> bool {
    &&& exists|y: int|
        0 <= y < es.len() && y != k && (#[trigger] es[y]) == e && name_of(s.nodes[es[y].inode])
            != new_name
    &&& name_of(f.nodes[e.inode]) == name_of(s.nodes[e.inode])
    &&& f.nodes[e.inode].inode_type == s.nodes[e.inode].inode_type
    &&& f.nodes[e.inode].num_subdir == s.nodes[e.inode].num_subdir
}

/// What was moved is found under its new name afterwards.
proof fn lemma_found_after(
    tree: Seq<DentryView>,
    at: int,
    f: FsState,
    ct: Seq<ClusterID>,
    fs: Seq<Held>,
    p: int,
)
    requires
        dir_agrees(tree, at, f, ct, fs),
        0 <= p < fs.len(),
    ensures
        ({
            let name = name_of(f.nodes[fs[p].inode]);
            let (t, r) = crate::exfat::fs::namei::looked_up(f, tree[at]->Dir_0.inode, name);
            &&& r == Ok::<usize, Errno>(fs[p].inode as usize)
            &&& 0 <= fs[p].inode <= usize::MAX
            &&& dir_agrees(tree, at, t, ct, fs)
        }),
{
    let d = tree[at]->Dir_0;
    let name = name_of(f.nodes[fs[p].inode]);
    assert(known(tree, d, f, fs[p]));
    crate::exfat::laws::dir::lemma_dir_ok(f, d.inode, ct, fs);
    crate::exfat::laws::dir::lemma_dir_entry(f, d.inode, ct, fs, p);
    crate::exfat::laws::dir::lemma_looked_up(f, d.inode, ct, fs, name);
    crate::exfat::laws::dir::lemma_found_in(f, fs, p);
    let t = crate::exfat::fs::namei::looked_up(f, d.inode, name).0;
    lemma_only_volume(tree, at, f, t, ct, fs);
}

/// Renaming to a name that is not there does what the model says.
proof fn lemma_rename_to_new(
    tree: Seq<DentryView>,
    at: int,
    s: FsState,
    cs: Seq<ClusterID>,
    es: Seq<Held>,
    k: int,
    new_name: Seq<char>,
    now: DosTimestamp,
) -> (r: (Seq<ClusterID>, Seq<Held>))
    requires
        dir_agrees(tree, at, s, cs, es),
        0 <= k < es.len(),
        plain(new_name),
        !tree[at]->Dir_0.sub_dirs.contains_key(new_name),
        s.nodes.len() < usize::MAX,
        es.len() < u32::MAX,
        s.next_ino != crate::exfat::constants::EXFAT_ROOT_INO,
        has_room(s, tree[at]->Dir_0.inode, new_name),
    ensures
        ({
            let (tree1, t, agrees) = crate::random_test::dir::rename_executed(
                tree,
                at,
                s,
                name_of(s.nodes[es[k].inode]),
                new_name,
                now,
            );
            &&& agrees
            &&& dir_agrees(tree1, at, t, r.0, r.1)
        }),
{
    let d = tree[at]->Dir_0;
    let old_name = name_of(s.nodes[es[k].inode]);
    let c = es[k].inode;
    assert(known(tree, d, s, es[k]));
    assert forall|y: int| 0 <= y < es.len() implies name_of(s.nodes[(#[trigger] es[y]).inode])
        != new_name by {
        assert(known(tree, d, s, es[y]));
    }
    crate::exfat::laws::dir::law_open_stays(s, d.inode, cs, es);
    crate::exfat::laws::rename::law_rename_succeeds_within(
        s,
        s,
        d.inode,
        cs,
        es,
        k,
        new_name,
        now,
    );
    let (ds, p, e) = crate::exfat::laws::rename::law_renamed_within(
        s,
        s,
        d.inode,
        cs,
        es,
        k,
        new_name,
        now,
    );
    let f = crate::exfat::fs::namei::renamed(s, d.inode, old_name, d.inode, new_name, now).0;
    let left = es.remove(k);
    assert forall|z: int| 0 <= z < left.len() implies stays(
        s,
        f,
        es,
        k,
        new_name,
        #[trigger] left[z],
    ) by {
        let y = if z < k {
            z
        } else {
            z + 1
        };
        assert(left[z] == es[y]);
        crate::exfat::laws::dir::lemma_dir_entry(s, d.inode, cs, es, y);
        crate::exfat::laws::remove::lemma_inodes_differ(s, d.inode, cs, es, y, k);
    }
    assert forall|y: int|
        0 <= y < es.len() && y != k && name_of(s.nodes[(#[trigger] es[y]).inode])
            != new_name implies left.contains(es[y]) by {
        let z = if y < k {
            y
        } else {
            y - 1
        };
        assert(left[z] == es[y]);
    }
    lemma_model_renamed_wf(tree, at, old_name, new_name, false, c);
    lemma_rename_agrees(tree, at, s, f, cs, es, k, new_name, cs + ds, left, p, e);
    let tree1 = crate::random_test::dir::model_renamed(tree, at, old_name, new_name, false, c);
    let fs = left.insert(p, e);
    assert(fs[p] == e);
    lemma_found_after(tree1, at, f, cs + ds, fs, p);
    (cs + ds, fs)
}

/// Renaming to a name that is there does what the model says.
proof fn lemma_rename_to_known(
    tree: Seq<DentryView>,
    at: int,
    s: FsState,
    cs: Seq<ClusterID>,
    es: Seq<Held>,
    k: int,
    x: int,
    xs: Seq<ClusterID>,
    now: DosTimestamp,
) -> (r: (Seq<ClusterID>, Seq<Held>))
    requires
        dir_agrees(tree, at, s, cs, es),
        data_ok(s.vol),
        0 <= k < es.len(),
        0 <= x < es.len(),
        k != x,
        is_chain(s.vol, s.nodes[es[x].inode].start_chain, xs),
        off_limits(s, tree[at]->Dir_0.inode, cs, xs),
        s.nodes.len() < usize::MAX,
        es.len() < u32::MAX,
        s.next_ino != crate::exfat::constants::EXFAT_ROOT_INO,
        has_room(s, tree[at]->Dir_0.inode, name_of(s.nodes[es[x].inode])),
    ensures
        ({
            let (tree1, t, agrees) = crate::random_test::dir::rename_executed(
                tree,
                at,
                s,
                name_of(s.nodes[es[k].inode]),
                name_of(s.nodes[es[x].inode]),
                now,
            );
            &&& agrees
            &&& dir_agrees(tree1, at, t, r.0, r.1)
        }),
{
    let d = tree[at]->Dir_0;
    let old_name = name_of(s.nodes[es[k].inode]);
    let new_name = name_of(s.nodes[es[x].inode]);
    let c = es[k].inode;
    assert(known(tree, d, s, es[k]));
    assert(known(tree, d, s, es[x]));
    crate::exfat::laws::dir::lemma_dir_ok(s, d.inode, cs, es);
    assert(old_name != new_name) by {
        if k < x {
            assert(name_of(s.nodes[es[k].inode]) != name_of(s.nodes[es[x].inode]));
        } else {
            assert(name_of(s.nodes[es[x].inode]) != name_of(s.nodes[es[k].inode]));
        }
    }
    let (f, q) = crate::exfat::fs::namei::renamed(s, d.inode, old_name, d.inode, new_name, now);
    if crate::exfat::fs::namei::may_replace(s.nodes[c], s.nodes[es[x].inode]) is Err {
        crate::exfat::laws::open::law_both_stay(
            s,
            d.inode,
            cs,
            es,
            name_of(s.nodes[es[k].inode]),
            d.inode,
            cs,
            es,
        );
        crate::exfat::laws::refuse::law_replacing_refused(
            s,
            s,
            d.inode,
            cs,
            es,
            k,
            d.inode,
            cs,
            es,
            x,
            now,
        );
        lemma_only_volume(tree, at, s, f, cs, es);
        (cs, es)
    } else {
        crate::exfat::laws::dir::law_open_stays(s, d.inode, cs, es);
        crate::exfat::laws::replace::law_rename_over_succeeds_within(
            s,
            s,
            d.inode,
            cs,
            es,
            k,
            x,
            xs,
            now,
        );
        let (ds, p, e) = crate::exfat::laws::replace::law_renamed_over_within(
            s,
            s,
            d.inode,
            cs,
            es,
            k,
            x,
            xs,
            now,
        );
        let rest = es.remove(k);
        let x1 = crate::exfat::laws::replace::closed_up(k, x);
        let left = rest.remove(x1);
        assert forall|z: int| 0 <= z < left.len() implies stays(
            s,
            f,
            es,
            k,
            new_name,
            #[trigger] left[z],
        ) by {
            let y1 = if z < x1 {
                z
            } else {
                z + 1
            };
            let y = if y1 < k {
                y1
            } else {
                y1 + 1
            };
            assert(left[z] == rest[y1]);
            assert(rest[y1] == es[y]);
            crate::exfat::laws::dir::lemma_dir_entry(s, d.inode, cs, es, y);
            crate::exfat::laws::remove::lemma_inodes_differ(s, d.inode, cs, es, y, k);
            crate::exfat::laws::remove::lemma_inodes_differ(s, d.inode, cs, es, y, x);
            if y < x {
                assert(name_of(s.nodes[es[y].inode]) != name_of(s.nodes[es[x].inode]));
            } else {
                assert(name_of(s.nodes[es[x].inode]) != name_of(s.nodes[es[y].inode]));
            }
        }
        assert forall|y: int|
            0 <= y < es.len() && y != k && name_of(s.nodes[(#[trigger] es[y]).inode])
                != new_name implies left.contains(es[y]) by {
            let y1 = crate::exfat::laws::replace::closed_up(k, y);
            assert(rest[y1] == es[y]);
            assert(y1 != x1);
            let z = crate::exfat::laws::replace::closed_up(x1, y1);
            assert(left[z] == rest[y1]);
        }
        lemma_model_renamed_wf(tree, at, old_name, new_name, true, c);
        lemma_rename_agrees(tree, at, s, f, cs, es, k, new_name, cs + ds, left, p, e);
        let tree1 = crate::random_test::dir::model_renamed(tree, at, old_name, new_name, true, c);
        let fs = left.insert(p, e);
        assert(fs[p] == e);
        lemma_found_after(tree1, at, f, cs + ds, fs, p);
        (cs + ds, fs)
    }
}

/// Renaming in a directory does what the model says: it fails where the old name is not
/// there or the new one is that of something that must not be replaced, and succeeds
/// otherwise where there is room.
pub proof fn law_rename_agrees(
    tree: Seq<DentryView>,
    at: int,
    s: FsState,
    cs: Seq<ClusterID>,
    es: Seq<Held>,
    old_name: Seq<char>,
    new_name: Seq<char>,
    xs: Seq<ClusterID>,
    now: DosTimestamp,
) -> (r: (Seq<ClusterID>, Seq<Held>))
    requires
        dir_agrees(tree, at, s, cs, es),
        data_ok(s.vol),
        plain(new_name),
        removable(s, tree[at]->Dir_0.inode, cs, es, new_name, xs),
        s.nodes.len() < usize::MAX,
        es.len() < u32::MAX,
        s.next_ino != crate::exfat::constants::EXFAT_ROOT_INO,
        has_room(s, tree[at]->Dir_0.inode, new_name),
    ensures
        ({
            let (tree1, t, agrees) = crate::random_test::dir::dir_executed(
                tree,
                at,
                s,
                OperationView::Rename(old_name, new_name),
                now,
            );
            &&& agrees
            &&& dir_agrees(tree1, at, t, r.0, r.1)
        }),
{
    let d = tree[at]->Dir_0;
    crate::exfat::laws::dir::lemma_dir_ok(s, d.inode, cs, es);
    if old_name == new_name {
        (cs, es)
    } else if !d.sub_dirs.contains_key(old_name) {
        lemma_name_unknown(tree, at, s, cs, es, old_name);
        (cs, es)
    } else {
        let k = choose|k: int|
            0 <= k < es.len() && name_of(s.nodes[(#[trigger] es[k]).inode]) == old_name;
        if !d.sub_dirs.contains_key(new_name) {
            lemma_rename_to_new(tree, at, s, cs, es, k, new_name, now)
        } else {
            let x = choose|x: int|
                0 <= x < es.len() && name_of(s.nodes[(#[trigger] es[x]).inode]) == new_name;
            lemma_rename_to_known(tree, at, s, cs, es, k, x, xs, now)
        }
    }
}

} // verus!
