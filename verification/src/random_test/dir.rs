//! What is done to directories.

use vstd::prelude::*;
use crate::errno::Errno;
use crate::exfat::dentry::DosTimestamp;
use crate::exfat::fs::dir::{Dirent, DirentView};
use crate::exfat::fs::{ExfatFS, ExfatInode, FsState};
use crate::exfat::inode::{InodeMode, InodeType};
use crate::random_test::names::{remove_name, same_names, sort_names};
use crate::random_test::random::RandomSource;
use crate::random_test::sub_dirs::SubDirs;
use crate::random_test::{
    DentryInMemory, DentryView, DirInMemory, DirView, FileInMemory, FileView, FsInMemory,
    Operation, OperationView,
};
use crate::text::text_equal;

verus! {

/// A directory of the model with one more name.
pub open spec fn with_entry(d: DirView, name: Seq<char>, entry: usize) -> DirView {
    DirView {
        sub_names: d.sub_names.push(name),
        sub_dirs: d.sub_dirs.insert(name, entry),
        ..d
    }
}

/// A directory of the model without a name.
pub open spec fn without_entry(d: DirView, name: Seq<char>) -> DirView {
    DirView {
        sub_names: crate::random_test::names::without_name(d.sub_names, name),
        sub_dirs: d.sub_dirs.remove(name),
        ..d
    }
}

/// What is called `name` in a directory of the model.
pub open spec fn entry_named(tree: Seq<DentryView>, d: DirView, name: Seq<char>) -> Option<
    DentryView,
> {
    if d.sub_dirs.contains_key(name) {
        Some(tree[d.sub_dirs[name] as int])
    } else {
        None
    }
}

/// Whether a file or directory of the model is a directory without names.
pub open spec fn is_empty_dir(dentry: DentryView) -> bool {
    dentry matches DentryView::Dir(d) && d.sub_dirs.dom().finite() && d.sub_dirs.dom().len() == 0
}

/// A new file or directory of the model.
pub open spec fn new_dentry(name: Seq<char>, type_: InodeType, inode: int, depth: u32) ->
    DentryView {
    if type_ is File {
        DentryView::File(
            FileView { name, inode, valid_len: 0, contents: Seq::<u8>::empty() },
        )
    } else {
        DentryView::Dir(
            DirView {
                depth,
                name,
                inode,
                sub_names: Seq::<Seq<char>>::empty(),
                sub_dirs: crate::random_test::sub_dirs::no_entries(),
            },
        )
    }
}

/// A file or directory of the model with another name and inode.
pub open spec fn renamed_dentry(
    dentry: DentryView,
    name: Seq<char>,
    inode: int,
    depth: u32,
) -> DentryView {
    match dentry {
        DentryView::File(f) => DentryView::File(FileView { name, inode, ..f }),
        DentryView::Dir(d) => DentryView::Dir(DirView { name, inode, depth, ..d }),
    }
}

/// The names of entries.
pub open spec fn names_of(entries: Seq<DirentView>) -> Seq<Seq<char>> {
    Seq::new(entries.len(), |i: int| entries[i].name)
}

/// Whether a rename must succeed, and whether something is replaced then.
pub open spec fn rename_allowed(
    tree: Seq<DentryView>,
    d: DirView,
    old_name: Seq<char>,
    new_name: Seq<char>,
) -> Option<bool> {
    match entry_named(tree, d, old_name) {
        None => None,
        Some(moving) => match entry_named(tree, d, new_name) {
            None => Some(false),
            Some(there) => if (moving is File && there is File) || (moving is Dir && is_empty_dir(
                there,
            )) {
                Some(true)
            } else {
                None
            },
        },
    }
}

/// The model after a rename in the directory with the number `at`.
pub open spec fn model_renamed(
    tree: Seq<DentryView>,
    at: int,
    old_name: Seq<char>,
    new_name: Seq<char>,
    exist: bool,
    inode: int,
) -> Seq<DentryView> {
    let d = tree[at]->Dir_0;
    let entry = d.sub_dirs[old_name];
    let d1 = without_entry(d, old_name);
    let d2 = if exist {
        without_entry(d1, new_name)
    } else {
        d1
    };
    tree.update(at, DentryView::Dir(with_entry(d2, new_name, entry))).update(
        entry as int,
        renamed_dentry(
            tree[entry as int],
            new_name,
            inode,
            crate::exfat::fs::dir::one_more(d.depth),
        ),
    )
}

/// What doing something to the directory with the number `at` makes of the model and
/// the file system, and whether the file system did what the model says.
pub open spec fn dir_executed(
    tree: Seq<DentryView>,
    at: int,
    s: FsState,
    op: OperationView,
    now: DosTimestamp,
) -> (Seq<DentryView>, FsState, bool) {
    let d = tree[at]->Dir_0;
    match op {
        OperationView::Create(name, type_) => {
            let (s1, r1) = crate::exfat::fs::namei::created(s, d.inode, name, type_, now);
            if d.sub_dirs.contains_key(name) {
                (tree, s1, r1 is Err)
            } else {
                match r1 {
                    Err(_) => (tree, s1, false),
                    Ok(c) => (
                        tree.update(
                            at,
                            DentryView::Dir(with_entry(d, name, tree.len() as usize)),
                        ).push(
                            new_dentry(
                                name,
                                type_,
                                c as int,
                                crate::exfat::fs::dir::one_more(d.depth),
                            ),
                        ),
                        s1,
                        true,
                    ),
                }
            }
        },
        OperationView::Lookup(name) => {
            let (s1, r1) = crate::exfat::fs::namei::looked_up(s, d.inode, name);
            (tree, s1, r1 is Ok == d.sub_dirs.contains_key(name))
        },
        OperationView::Readdir() => {
            let (s1, entries, r1) = crate::exfat::fs::namei::listed(
                s,
                d.inode,
                0,
                Seq::empty(),
            );
            let count = d.sub_dirs.dom().len();
            let sub_names = crate::random_test::names::sorted(d.sub_names);
            if !(r1 is Ok && r1->Ok_0 == count && entries.len() == count) {
                (tree, s1, false)
            } else {
                (
                    tree.update(at, DentryView::Dir(DirView { sub_names, ..d })),
                    s1,
                    crate::random_test::names::sorted(names_of(entries)) == sub_names,
                )
            }
        },
        OperationView::Unlink(name) => {
            let (s1, r1) = crate::exfat::fs::namei::unlinked(s, d.inode, name);
            if entry_named(tree, d, name) matches Some(DentryView::File(_)) {
                if r1 is Ok {
                    (tree.update(at, DentryView::Dir(without_entry(d, name))), s1, true)
                } else {
                    (tree, s1, false)
                }
            } else {
                (tree, s1, r1 is Err)
            }
        },
        OperationView::Rmdir(name) => {
            let (s1, r1) = crate::exfat::fs::namei::directory_removed(s, d.inode, name);
            let there = entry_named(tree, d, name);
            if there is Some && is_empty_dir(there->Some_0) {
                if r1 is Ok {
                    (tree.update(at, DentryView::Dir(without_entry(d, name))), s1, true)
                } else {
                    (tree, s1, false)
                }
            } else {
                (tree, s1, r1 is Err)
            }
        },
        OperationView::Rename(old_name, new_name) => rename_executed(
            tree,
            at,
            s,
            old_name,
            new_name,
            now,
        ),
        _ => (tree, s, true),
    }
}

/// What renaming in the directory with the number `at` makes of the model and the file
/// system, and whether the file system did what the model says.
pub open spec fn rename_executed(
    tree: Seq<DentryView>,
    at: int,
    s: FsState,
    old_name: Seq<char>,
    new_name: Seq<char>,
    now: DosTimestamp,
) -> (Seq<DentryView>, FsState, bool) {
    let d = tree[at]->Dir_0;
    let (s1, r1) = crate::exfat::fs::namei::renamed(
        s,
        d.inode,
        old_name,
        d.inode,
        new_name,
        now,
    );
    if old_name == new_name {
        (tree, s1, r1 is Ok)
    } else {
        match rename_allowed(tree, d, old_name, new_name) {
            None => (tree, s1, r1 is Err),
            Some(exist) => if r1 is Err {
                (tree, s1, false)
            } else {
                let (s2, r2) = crate::exfat::fs::namei::looked_up(s1, d.inode, new_name);
                match r2 {
                    Err(_) => (tree, s2, false),
                    Ok(c) => (
                        model_renamed(tree, at, old_name, new_name, exist, c as int),
                        s2,
                        true,
                    ),
                }
            },
        }
    }
}

/// A list in which no name stands twice, without one name.
proof fn lemma_without_name(names: Seq<Seq<char>>, name: Seq<char>)
    requires
        names.no_duplicates(),
    ensures
        crate::random_test::names::without_name(names, name).no_duplicates(),
        forall|other: Seq<char>|
            #![trigger crate::random_test::names::without_name(names, name).contains(other)]
            crate::random_test::names::without_name(names, name).contains(other) <==> (
            names.contains(other) && other != name),
    decreases names.len(),
{
    let r = crate::random_test::names::without_name(names, name);
    if names.len() == 0 {
    } else {
        let first = names[0];
        let rest = names.drop_first();
        assert forall|i: int, j: int| 0 <= i < rest.len() && 0 <= j < rest.len() && i != j implies
            rest[i] != rest[j] by {
            assert(rest[i] == names[i + 1] && rest[j] == names[j + 1]);
        }
        assert(rest.no_duplicates());
        assert forall|other: Seq<char>| names.contains(other) <==> (other == first
            || #[trigger] rest.contains(other)) by {
            if names.contains(other) {
                let k = choose|k: int| 0 <= k < names.len() && names[k] == other;
                if k > 0 {
                    assert(rest[k - 1] == other);
                }
            }
            if rest.contains(other) {
                let k = choose|k: int| 0 <= k < rest.len() && rest[k] == other;
                assert(names[k + 1] == other);
            }
            if other == first {
                assert(names[0] == other);
            }
        }
        assert(!rest.contains(first)) by {
            if rest.contains(first) {
                let k = choose|k: int| 0 <= k < rest.len() && rest[k] == first;
                assert(names[k + 1] == names[0]);
            }
        }
        if first == name {
            assert(r =~= rest);
            assert forall|other: Seq<char>| #[trigger] r.contains(other) <==> (names.contains(other)
                && other != name) by {
                assert(rest.contains(other) == r.contains(other));
            }
        } else {
            lemma_without_name(rest, name);
            let q = crate::random_test::names::without_name(rest, name);
            assert(r =~= seq![first] + q);
            assert(!q.contains(first));
            assert forall|i: int, j: int| 0 <= i < r.len() && 0 <= j < r.len() && i != j implies
                r[i] != r[j] by {
                if i > 0 {
                    assert(r[i] == q[i - 1]);
                    assert(q.contains(r[i]));
                }
                if j > 0 {
                    assert(r[j] == q[j - 1]);
                    assert(q.contains(r[j]));
                }
            }
            assert forall|other: Seq<char>| #[trigger] r.contains(other) <==> (names.contains(other)
                && other != name) by {
                assert(names.contains(other) <==> (other == first || rest.contains(other)));
                if r.contains(other) {
                    let k = choose|k: int| 0 <= k < r.len() && r[k] == other;
                    if k > 0 {
                        assert(q[k - 1] == other);
                        assert(q.contains(other));
                    }
                }
                if q.contains(other) {
                    let k = choose|k: int| 0 <= k < q.len() && q[k] == other;
                    assert(r[k + 1] == other);
                }
                if other == first {
                    assert(r[0] == other);
                }
            }
        }
    }
}

/// A directory of the model without a name is well-formed.
proof fn lemma_without_entry(d: DirView, name: Seq<char>, at: int, count: int)
    requires
        d.wf(at, count),
    ensures
        without_entry(d, name).wf(at, count),
{
    lemma_without_name(d.sub_names, name);
    let r = without_entry(d, name);
    assert forall|other: Seq<char>|
        r.sub_names.contains(other) <==> #[trigger] r.sub_dirs.contains_key(other) by {
        assert(d.sub_names.contains(other) <==> d.sub_dirs.contains_key(other));
    }
    assert forall|other: Seq<char>| #[trigger] r.sub_dirs.contains_key(other) implies at
        < r.sub_dirs[other] < count by {
        assert(d.sub_dirs.contains_key(other));
    }
}

/// A directory of the model with one more name is well-formed.
proof fn lemma_with_entry(d: DirView, name: Seq<char>, entry: usize, at: int, count: int)
    requires
        d.wf(at, count),
        !d.sub_dirs.contains_key(name),
        at < entry,
    ensures
        entry < count ==> with_entry(d, name, entry).wf(at, count),
        entry == count ==> with_entry(d, name, entry).wf(at, count + 1),
{
    let r = with_entry(d, name, entry);
    assert(!d.sub_names.contains(name));
    assert forall|i: int, j: int| 0 <= i < r.sub_names.len() && 0 <= j < r.sub_names.len() && i
        != j implies r.sub_names[i] != r.sub_names[j] by {
        if i < d.sub_names.len() {
            assert(d.sub_names.contains(r.sub_names[i]));
        }
        if j < d.sub_names.len() {
            assert(d.sub_names.contains(r.sub_names[j]));
        }
    }
    assert forall|other: Seq<char>|
        r.sub_names.contains(other) <==> #[trigger] r.sub_dirs.contains_key(other) by {
        assert(d.sub_names.contains(other) <==> d.sub_dirs.contains_key(other));
        if r.sub_names.contains(other) {
            let k = choose|k: int| 0 <= k < r.sub_names.len() && r.sub_names[k] == other;
            if k < d.sub_names.len() {
                assert(d.sub_names[k] == other);
            }
        }
        if d.sub_names.contains(other) {
            let k = choose|k: int| 0 <= k < d.sub_names.len() && d.sub_names[k] == other;
            assert(r.sub_names[k] == other);
        }
        if other == name {
            assert(r.sub_names[d.sub_names.len() as int] == other);
        }
    }
    assert forall|other: Seq<char>| #[trigger] r.sub_dirs.contains_key(other) implies at
        < r.sub_dirs[other] by {
        if other != name {
            assert(d.sub_dirs.contains_key(other));
        }
    }
    assert forall|other: Seq<char>| #[trigger] r.sub_dirs.contains_key(other) implies (entry < count
        ==> r.sub_dirs[other] < count) && (entry == count ==> r.sub_dirs[other] < count + 1) by {
        if other != name {
            assert(d.sub_dirs.contains_key(other));
        }
    }
}

/// A directory of the model whose names are sorted is well-formed.
proof fn lemma_sorted_dir(d: DirView, at: int, count: int)
    requires
        d.wf(at, count),
    ensures
        (DirView { sub_names: crate::random_test::names::sorted(d.sub_names), ..d }).wf(at, count),
{
    broadcast use vstd::seq_lib::group_to_multiset_ensures;

    let r = crate::random_test::names::sorted(d.sub_names);
    crate::random_test::names::law_sorted(d.sub_names);
    d.sub_names.lemma_multiset_has_no_duplicates();
    r.lemma_multiset_has_no_duplicates_conv();
    assert forall|other: Seq<char>| r.contains(other) <==> #[trigger] d.sub_dirs.contains_key(
        other,
    ) by {
        assert(r.to_multiset().count(other) == d.sub_names.to_multiset().count(other));
        assert(d.sub_names.contains(other) <==> d.sub_dirs.contains_key(other));
    }
}

/// The model stays well-formed when something gets another name.
pub proof fn lemma_model_renamed_wf(
    tree: Seq<DentryView>,
    at: int,
    old_name: Seq<char>,
    new_name: Seq<char>,
    exist: bool,
    inode: int,
)
    requires
        crate::random_test::model_wf(tree),
        0 <= at < tree.len() <= usize::MAX,
        tree[at] is Dir,
        old_name != new_name,
        tree[at]->Dir_0.sub_dirs.contains_key(old_name),
        exist || !tree[at]->Dir_0.sub_dirs.contains_key(new_name),
    ensures
        crate::random_test::model_wf(
            model_renamed(tree, at, old_name, new_name, exist, inode),
        ),
{
    let d = tree[at]->Dir_0;
    let n = tree.len() as int;
    let t = model_renamed(tree, at, old_name, new_name, exist, inode);
    assert(tree[at].wf(at, n));
    let entry = d.sub_dirs[old_name];
    let d1 = without_entry(d, old_name);
    lemma_without_entry(d, old_name, at, n);
    lemma_without_entry(d1, new_name, at, n);
    let d2 = without_entry(d1, new_name);
    lemma_with_entry(d2, new_name, entry, at, n);
    if !d1.sub_dirs.contains_key(new_name) {
        lemma_with_entry(d1, new_name, entry, at, n);
    }
    assert(tree[entry as int].wf(entry as int, n));
    assert forall|i: int| 0 <= i < t.len() implies (#[trigger] t[i]).wf(i, t.len() as int) by {
        assert(tree[i].wf(i, n));
    }
}

/// The model stays well-formed, whatever is done to a directory.
pub proof fn law_model_stays_wf(
    tree: Seq<DentryView>,
    at: int,
    s: FsState,
    op: OperationView,
    now: DosTimestamp,
)
    requires
        crate::random_test::model_wf(tree),
        0 <= at < tree.len() <= usize::MAX,
        tree[at] is Dir,
    ensures
        crate::random_test::model_wf(dir_executed(tree, at, s, op, now).0),
{
    let d = tree[at]->Dir_0;
    let n = tree.len() as int;
    let t = dir_executed(tree, at, s, op, now).0;
    assert(tree[at].wf(at, n));
    match op {
        OperationView::Create(name, type_) => {
            if !d.sub_dirs.contains_key(name) {
                lemma_with_entry(d, name, tree.len() as usize, at, n);
            }
        },
        OperationView::Readdir() => {
            lemma_sorted_dir(d, at, n);
        },
        OperationView::Unlink(name) => {
            lemma_without_entry(d, name, at, n);
        },
        OperationView::Rmdir(name) => {
            lemma_without_entry(d, name, at, n);
        },
        OperationView::Rename(old_name, new_name) => {
            if d.sub_dirs.contains_key(old_name) && old_name != new_name {
                let there = d.sub_dirs.contains_key(new_name);
                let s1 = crate::exfat::fs::namei::renamed(
                    s,
                    d.inode,
                    old_name,
                    d.inode,
                    new_name,
                    now,
                ).0;
                let r2 = crate::exfat::fs::namei::looked_up(s1, d.inode, new_name).1;
                lemma_model_renamed_wf(tree, at, old_name, new_name, there, r2->Ok_0 as int);
            }
        },
        _ => {},
    }
    assert forall|i: int| 0 <= i < t.len() implies (#[trigger] t[i]).wf(i, t.len() as int) by {
        if i < n {
            assert(tree[i].wf(i, n));
        }
    }
}

impl DirInMemory {
    /// Forgets a name in the list of names.
    pub fn remove_sub_names(&mut self, name: &str)
        ensures
            final(self)@ == (DirView {
                sub_names: crate::random_test::names::without_name(old(self)@.sub_names, name@),
                ..old(self)@
            }),
    {
        remove_name(&mut self.sub_names, name);
    }

    /// Forgets a name.
    pub fn remove_by_name(&mut self, name: &str)
        ensures
            final(self)@ == without_entry(old(self)@, name@),
    {
        self.sub_dirs.remove(name);
        self.remove_sub_names(name);
    }

    /// Takes a name up.
    fn add_by_name(&mut self, name: &str, entry: usize)
        ensures
            final(self)@ == with_entry(old(self)@, name@, entry),
    {
        self.sub_dirs.insert(name.to_string(), entry);
        let ghost before = self.sub_names@;
        self.sub_names.push(name.to_string());
        assert(crate::random_test::names::texts(self.sub_names@) =~=
            crate::random_test::names::texts(before).push(name@));
    }
}

/// One more, as far as that can be counted.
fn count_on(n: u32) -> (result: u32)
    ensures
        result == crate::exfat::fs::dir::one_more(n),
{
    if n == u32::MAX {
        n
    } else {
        n + 1
    }
}

impl FsInMemory {
    /// Takes a name up in a directory.
    fn add_name(&mut self, at: usize, name: &str, entry: usize)
        requires
            at < old(self)@.len(),
            old(self)@[at as int] is Dir,
        ensures
            final(self)@ == old(self)@.update(
                at as int,
                DentryView::Dir(with_entry(old(self)@[at as int]->Dir_0, name@, entry)),
            ),
    {
        match &mut self.dentries[at] {
            DentryInMemory::Dir(dir) => {
                dir.add_by_name(name, entry);
            },
            DentryInMemory::File(_) => {},
        }
        assert(self@ =~= old(self)@.update(
            at as int,
            DentryView::Dir(with_entry(old(self)@[at as int]->Dir_0, name@, entry)),
        ));
    }

    /// Forgets a name in a directory.
    fn forget_name(&mut self, at: usize, name: &str)
        requires
            at < old(self)@.len(),
            old(self)@[at as int] is Dir,
        ensures
            final(self)@ == old(self)@.update(
                at as int,
                DentryView::Dir(without_entry(old(self)@[at as int]->Dir_0, name@)),
            ),
    {
        match &mut self.dentries[at] {
            DentryInMemory::Dir(dir) => {
                dir.remove_by_name(name);
            },
            DentryInMemory::File(_) => {},
        }
        assert(self@ =~= old(self)@.update(
            at as int,
            DentryView::Dir(without_entry(old(self)@[at as int]->Dir_0, name@)),
        ));
    }

    /// Gives a file or directory another name and inode.
    fn rename_entry(&mut self, entry: usize, name: &str, inode: ExfatInode, depth: u32)
        requires
            entry < old(self)@.len(),
        ensures
            final(self)@ == old(self)@.update(
                entry as int,
                renamed_dentry(old(self)@[entry as int], name@, inode.id(), depth),
            ),
    {
        match &mut self.dentries[entry] {
            DentryInMemory::Dir(dir) => {
                dir.inode = inode;
                dir.name = name.to_string();
                dir.depth = depth;
            },
            DentryInMemory::File(file) => {
                file.inode = inode;
                file.name = name.to_string();
            },
        }
        assert(self@ =~= old(self)@.update(
            entry as int,
            renamed_dentry(old(self)@[entry as int], name@, inode.id(), depth),
        ));
    }

    /// What is called `name` in a directory.
    fn entry_of(&self, at: usize, name: &str) -> (entry: Option<usize>)
        requires
            at < self@.len(),
            self@[at as int] is Dir,
        ensures
            entry == (if self@[at as int]->Dir_0.sub_dirs.contains_key(name@) {
                Some(self@[at as int]->Dir_0.sub_dirs[name@])
            } else {
                None
            }),
    {
        match self.dentry(at) {
            DentryInMemory::Dir(dir) => dir.sub_dirs.get(name),
            DentryInMemory::File(_) => None,
        }
    }

    /// The inode of a file or directory.
    fn inode_of(&self, at: usize) -> (inode: ExfatInode)
        requires
            at < self@.len(),
        ensures
            inode.id() == self@[at as int].inode(),
    {
        match self.dentry(at) {
            DentryInMemory::Dir(dir) => dir.inode,
            DentryInMemory::File(file) => file.inode,
        }
    }

    /// Whether this is a file.
    fn is_file(&self, at: usize) -> (result: bool)
        requires
            at < self@.len(),
        ensures
            result == (self@[at as int] is File),
    {
        matches!(self.dentry(at), DentryInMemory::File(_))
    }

    /// Whether this is a directory without names.
    fn is_empty(&self, at: usize) -> (result: bool)
        requires
            at < self@.len(),
        ensures
            result == is_empty_dir(self@[at as int]),
    {
        match self.dentry(at) {
            DentryInMemory::Dir(dir) => dir.sub_dirs.len() == 0,
            DentryInMemory::File(_) => false,
        }
    }

    /// The number of directories above what is in a directory.
    fn depth_below(&self, at: usize) -> (depth: u32)
        requires
            at < self@.len(),
            self@[at as int] is Dir,
        ensures
            depth == crate::exfat::fs::dir::one_more(self@[at as int]->Dir_0.depth),
    {
        match self.dentry(at) {
            DentryInMemory::Dir(dir) => count_on(dir.depth),
            DentryInMemory::File(_) => 0,
        }
    }
}

/// What holds of a model and a file system before and after everything that is done.
pub open spec fn fits(tree: Seq<DentryView>, at: int, s: FsState) -> bool {
    &&& crate::random_test::model_wf(tree)
    &&& crate::random_test::model_of(tree, s)
    &&& 0 <= at < tree.len()
}

impl DirInMemory {
    /// Does something to a directory of the model and to the inode that it is held
    /// against, and returns whether the file system did what the model says.
    #[verifier::rlimit(30)]
    pub fn execute_and_test(
        model: &mut FsInMemory,
        at: usize,
        fs: &mut ExfatFS,
        op: Operation,
        now: DosTimestamp,
    ) -> (agrees: bool)
        requires
            fits(old(model)@, at as int, old(fs)@),
            old(model)@[at as int] is Dir,
            old(fs).wf(),
        ensures
            final(fs).wf(),
            fits(final(model)@, at as int, final(fs)@),
            (final(model)@, final(fs)@, agrees) == dir_executed(
                old(model)@,
                at as int,
                old(fs)@,
                op@,
                now,
            ),
    {
        let count: usize = model.count();
        proof {
            law_model_stays_wf(model@, at as int, fs@, op@, now);
        }
        match &op {
            Operation::Create(name, type_) => create_and_test(
                model,
                at,
                fs,
                name.as_str(),
                *type_,
                now,
            ),
            Operation::Lookup(name) => {
                let found: bool = model.inode_of(at).lookup(fs, name.as_str()).is_ok();
                found == model.entry_of(at, name.as_str()).is_some()
            },
            Operation::Readdir() => readdir_and_test(model, at, fs),
            Operation::Unlink(name) => unlink_and_test(model, at, fs, name.as_str()),
            Operation::Rmdir(name) => rmdir_and_test(model, at, fs, name.as_str()),
            Operation::Rename(old_name, new_name) => rename_and_test(
                model,
                at,
                fs,
                old_name.as_str(),
                new_name.as_str(),
                now,
            ),
            _ => true,
        }
    }
}

/// Makes a file or directory, in the file system and in the model.
fn create_and_test(
    model: &mut FsInMemory,
    at: usize,
    fs: &mut ExfatFS,
    name: &str,
    type_: InodeType,
    now: DosTimestamp,
) -> (agrees: bool)
    requires
        fits(old(model)@, at as int, old(fs)@),
        old(model)@[at as int] is Dir,
        old(fs).wf(),
    ensures
        final(fs).wf(),
        crate::random_test::model_of(final(model)@, final(fs)@),
        (final(model)@, final(fs)@, agrees) == dir_executed(
            old(model)@,
            at as int,
            old(fs)@,
            OperationView::Create(name@, type_),
            now,
        ),
        at < final(model)@.len(),
{
    let inode: ExfatInode = model.inode_of(at);
    let result: Result<ExfatInode, Errno> = inode.create(fs, name, type_, InodeMode::all(), now);
    if model.entry_of(at, name).is_some() {
        return result.is_err();
    }
    match result {
        Err(_) => false,
        Ok(new_inode) => {
            let entry: usize = model.count();
            let depth: u32 = model.depth_below(at);
            let dentry: DentryInMemory = if type_.is_reguler_file() {
                DentryInMemory::File(
                    FileInMemory {
                        name: name.to_string(),
                        inode: new_inode,
                        valid_len: 0,
                        contents: Vec::new(),
                    },
                )
            } else {
                DentryInMemory::Dir(
                    DirInMemory {
                        depth,
                        name: name.to_string(),
                        inode: new_inode,
                        sub_names: Vec::new(),
                        sub_dirs: SubDirs::new(),
                    },
                )
            };
            proof {
                if type_ is Dir {
                    assert(dentry@->Dir_0.sub_names =~= Seq::<Seq<char>>::empty());
                }
                assert(dentry@ == new_dentry(name@, type_, new_inode.id(), depth));
            }
            model.add_name(at, name, entry);
            let ghost before = model@;
            model.dentries.push(dentry);
            assert(model@ =~= before.push(dentry@));
            true
        },
    }
}

/// Lists a directory, and holds the names against those of the model.
fn readdir_and_test(model: &mut FsInMemory, at: usize, fs: &mut ExfatFS) -> (agrees: bool)
    requires
        fits(old(model)@, at as int, old(fs)@),
        old(model)@[at as int] is Dir,
        old(fs).wf(),
    ensures
        final(fs).wf(),
        crate::random_test::model_of(final(model)@, final(fs)@),
        forall|now: DosTimestamp|
            (final(model)@, final(fs)@, agrees) == #[trigger] dir_executed(
                old(model)@,
                at as int,
                old(fs)@,
                OperationView::Readdir(),
                now,
            ),
        at < final(model)@.len(),
{
    let inode: ExfatInode = model.inode_of(at);
    let mut entries: Vec<Dirent> = Vec::new();
    assert(crate::exfat::fs::dir::dirents(entries@) =~= Seq::<DirentView>::empty());
    let result: Result<usize, Errno> = inode.readdir_at(fs, 0, &mut entries);
    let mut agrees: bool = false;
    match &mut model.dentries[at] {
        DentryInMemory::File(_) => {},
        DentryInMemory::Dir(dir) => {
            let count: usize = dir.sub_dirs.len();
            let counted: bool = match result {
                Err(_) => false,
                Ok(n) => n == count && entries.len() == count,
            };
            if counted {
                let names: Vec<String> = take_names(&entries);
                let listed: Vec<String> = sort_names(&names);
                let known: Vec<String> = sort_names(&dir.sub_names);
                agrees = same_names(&listed, &known);
                dir.sub_names = known;
            }
        },
    }
    assert(model@ =~= dir_executed(
        old(model)@,
        at as int,
        old(fs)@,
        OperationView::Readdir(),
        no_time(),
    ).0);
    agrees
}

/// Some moment.
spec fn no_time() -> DosTimestamp {
    DosTimestamp { time: 0, date: 0, increament_10ms: 0, utc_offset: 0 }
}

/// The names of entries.
fn take_names(entries: &Vec<Dirent>) -> (names: Vec<String>)
    ensures
        crate::random_test::names::texts(names@) == names_of(
            crate::exfat::fs::dir::dirents(entries@),
        ),
{
    let mut names: Vec<String> = Vec::new();
    let mut k: usize = 0;
    while k < entries.len()
        invariant
            k <= entries@.len(),
            names@.len() == k,
            forall|j: int| 0 <= j < k ==> (#[trigger] names@[j])@ == entries@[j].name@,
        decreases entries@.len() - k,
    {
        names.push(entries[k].name.clone());
        k = k + 1;
    }
    assert(crate::random_test::names::texts(names@) =~= names_of(
        crate::exfat::fs::dir::dirents(entries@),
    ));
    names
}

/// Removes a file, in the file system and in the model.
fn unlink_and_test(model: &mut FsInMemory, at: usize, fs: &mut ExfatFS, name: &str) -> (agrees: bool)
    requires
        fits(old(model)@, at as int, old(fs)@),
        old(model)@[at as int] is Dir,
        old(fs).wf(),
    ensures
        final(fs).wf(),
        crate::random_test::model_of(final(model)@, final(fs)@),
        forall|now: DosTimestamp|
            (final(model)@, final(fs)@, agrees) == #[trigger] dir_executed(
                old(model)@,
                at as int,
                old(fs)@,
                OperationView::Unlink(name@),
                now,
            ),
        at < final(model)@.len(),
{
    let inode: ExfatInode = model.inode_of(at);
    let result: Result<(), Errno> = inode.unlink(fs, name);
    assert(model@[at as int].wf(at as int, model@.len() as int));
    let is_file: bool = match model.entry_of(at, name) {
        None => false,
        Some(entry) => model.is_file(entry),
    };
    if is_file {
        if result.is_ok() {
            model.forget_name(at, name);
            true
        } else {
            false
        }
    } else {
        result.is_err()
    }
}

/// Removes a directory, in the file system and in the model.
fn rmdir_and_test(model: &mut FsInMemory, at: usize, fs: &mut ExfatFS, name: &str) -> (agrees: bool)
    requires
        fits(old(model)@, at as int, old(fs)@),
        old(model)@[at as int] is Dir,
        old(fs).wf(),
    ensures
        final(fs).wf(),
        crate::random_test::model_of(final(model)@, final(fs)@),
        forall|now: DosTimestamp|
            (final(model)@, final(fs)@, agrees) == #[trigger] dir_executed(
                old(model)@,
                at as int,
                old(fs)@,
                OperationView::Rmdir(name@),
                now,
            ),
        at < final(model)@.len(),
{
    let inode: ExfatInode = model.inode_of(at);
    let result: Result<(), Errno> = inode.rmdir(fs, name);
    assert(model@[at as int].wf(at as int, model@.len() as int));
    let is_empty: bool = match model.entry_of(at, name) {
        None => false,
        Some(entry) => model.is_empty(entry),
    };
    if is_empty {
        if result.is_ok() {
            model.forget_name(at, name);
            true
        } else {
            false
        }
    } else {
        result.is_err()
    }
}

/// Whether a rename must succeed, and whether something is replaced then.
fn check_rename(model: &FsInMemory, at: usize, old_name: &str, new_name: &str) -> (allowed: Option<
    bool,
>)
    requires
        crate::random_test::model_wf(model@),
        at < model@.len(),
        model@[at as int] is Dir,
    ensures
        allowed == rename_allowed(model@, model@[at as int]->Dir_0, old_name@, new_name@),
{
    assert(model@[at as int].wf(at as int, model@.len() as int));
    match model.entry_of(at, old_name) {
        None => None,
        Some(moving) => match model.entry_of(at, new_name) {
            None => Some(false),
            Some(there) => {
                if (model.is_file(moving) && model.is_file(there)) || (!model.is_file(moving)
                    && model.is_empty(there)) {
                    Some(true)
                } else {
                    None
                }
            },
        },
    }
}

/// Renames, in the file system and in the model.
fn rename_and_test(
    model: &mut FsInMemory,
    at: usize,
    fs: &mut ExfatFS,
    old_name: &str,
    new_name: &str,
    now: DosTimestamp,
) -> (agrees: bool)
    requires
        fits(old(model)@, at as int, old(fs)@),
        old(model)@[at as int] is Dir,
        old(fs).wf(),
    ensures
        final(fs).wf(),
        crate::random_test::model_of(final(model)@, final(fs)@),
        (final(model)@, final(fs)@, agrees) == rename_executed(
            old(model)@,
            at as int,
            old(fs)@,
            old_name@,
            new_name@,
            now,
        ),
        at < final(model)@.len(),
{
    let inode: ExfatInode = model.inode_of(at);
    let result: Result<(), Errno> = inode.rename(fs, old_name, &inode, new_name, now);
    if text_equal(old_name, new_name) {
        return result.is_ok();
    }
    match check_rename(model, at, old_name, new_name) {
        None => result.is_err(),
        Some(exist) => {
            if result.is_err() {
                return false;
            }
            match inode.lookup(fs, new_name) {
                Err(_) => false,
                Ok(new_inode) => {
                    rename_in_model(model, at, old_name, new_name, exist, new_inode);
                    true
                },
            }
        },
    }
}

/// Renames in the model.
fn rename_in_model(
    model: &mut FsInMemory,
    at: usize,
    old_name: &str,
    new_name: &str,
    exist: bool,
    inode: ExfatInode,
)
    requires
        crate::random_test::model_wf(old(model)@),
        at < old(model)@.len(),
        old(model)@[at as int] is Dir,
        old(model)@[at as int]->Dir_0.sub_dirs.contains_key(old_name@),
    ensures
        final(model)@ == model_renamed(
            old(model)@,
            at as int,
            old_name@,
            new_name@,
            exist,
            inode.id(),
        ),
{
    assert(model@[at as int].wf(at as int, model@.len() as int));
    let depth: u32 = model.depth_below(at);
    match model.entry_of(at, old_name) {
        None => {},
        Some(entry) => {
            model.forget_name(at, old_name);
            if exist {
                model.forget_name(at, new_name);
            }
            model.add_name(at, new_name, entry);
            model.rename_entry(entry, new_name, inode, depth);
            assert(model@ =~= model_renamed(
                old(model)@,
                at as int,
                old_name@,
                new_name@,
                exist,
                inode.id(),
            ));
        },
    }
}

/// What doing something to a file or directory makes of the model, the file system and
/// the random bytes, and whether the file system did what the model says.
pub open spec fn dentry_executed(
    tree: Seq<DentryView>,
    at: int,
    s: FsState,
    op: OperationView,
    random: Seq<u8>,
    now: DosTimestamp,
) -> (Seq<DentryView>, FsState, Seq<u8>, bool) {
    match tree[at] {
        DentryView::Dir(_) => {
            let (t, s1, agrees) = dir_executed(tree, at, s, op, now);
            (t, s1, random, agrees)
        },
        DentryView::File(f) => {
            let (f1, s1, rest, agrees) = crate::random_test::file::file_executed(
                f,
                s,
                op,
                random,
            );
            (tree.update(at, DentryView::File(f1)), s1, rest, agrees)
        },
    }
}

impl DentryInMemory {
    /// Does something to a file or directory of the model and to the inode that it is
    /// held against, and returns whether the file system did what the model says.
    pub fn execute_and_test(
        model: &mut FsInMemory,
        at: usize,
        fs: &mut ExfatFS,
        op: Operation,
        random: &mut RandomSource,
        now: DosTimestamp,
    ) -> (agrees: bool)
        requires
            fits(old(model)@, at as int, old(fs)@),
            old(fs).wf(),
            old(random).wf(),
            crate::random_test::file::file_operation_fits(op@),
        ensures
            final(fs).wf(),
            final(random).wf(),
            fits(final(model)@, at as int, final(fs)@),
            (final(model)@, final(fs)@, final(random)@, agrees) == dentry_executed(
                old(model)@,
                at as int,
                old(fs)@,
                op@,
                old(random)@,
                now,
            ),
    {
        assert(model@[at as int].wf(at as int, model@.len() as int));
        if !model.is_file(at) {
            return DirInMemory::execute_and_test(model, at, fs, op, now);
        }
        proof {
            crate::random_test::file::law_file_stays_wf(
                model@[at as int]->File_0,
                fs@,
                op@,
                random@,
            );
        }
        let mut agrees: bool = true;
        match &mut model.dentries[at] {
            DentryInMemory::Dir(_) => {},
            DentryInMemory::File(file) => {
                agrees = file.execute_and_test(fs, op, random);
            },
        }
        assert(model@ =~= dentry_executed(
            old(model)@,
            at as int,
            old(fs)@,
            op@,
            old(random)@,
            now,
        ).0);
        proof {
            assert forall|i: int| 0 <= i < model@.len() implies (#[trigger] model@[i]).wf(
                i,
                model@.len() as int,
            ) && 0 <= model@[i].inode() < fs@.nodes.len() by {
                assert(old(model)@[i].wf(i, old(model)@.len() as int));
            }
        }
        agrees
    }
}

} // verus!
