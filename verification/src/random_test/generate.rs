//! Random operations.

use vstd::prelude::*;
use crate::exfat::constants::PAGE_SIZE;
use crate::exfat::inode::InodeType;
use crate::random_test::names::number_name;
use crate::random_test::random::RandomSource;
use crate::random_test::{
    DentryInMemory, DentryView, DirInMemory, DirView, FileInMemory, FileView, FsInMemory,
    Operation, OperationView,
};

verus! {

pub const CREATE_FILE_ID: usize = 0;

pub const CREATE_DIR_ID: usize = 1;

pub const UNLINK_ID: usize = 2;

pub const RMDIR_ID: usize = 3;

pub const LOOKUP_ID: usize = 4;

pub const READDIR_ID: usize = 5;

pub const RENAME_ID: usize = 6;

/// The number of things that are done to directories.
pub const DIR_OP_NUM: usize = 7;

pub const READ_ID: usize = 0;

pub const WRITE_ID: usize = 1;

pub const RESIZE_ID: usize = 2;

/// The number of things that are done to files.
pub const FILE_OP_NUM: usize = 3;

/// The number of pages that files grow to.
pub const MAX_PAGE_PER_FILE: usize = 10;

/// What is left of random bytes after the next one.
pub open spec fn rest(random: Seq<u8>) -> Seq<u8> {
    crate::random_test::random::random_rest(random, 1)
}

/// The number of names in a directory.
pub open spec fn sub_count(dentry: DentryView) -> int {
    match dentry {
        DentryView::File(_) => 0,
        DentryView::Dir(d) => d.sub_names.len() as int,
    }
}

/// The file or directory that random bytes choose at or below the one with the number
/// `at`, and the random bytes that are left.
pub open spec fn selected(tree: Seq<DentryView>, at: int, random: Seq<u8>) -> (int, Seq<u8>)
    decreases tree.len() - at,
{
    let count = sub_count(tree[at]);
    if count == 0 {
        (at, random)
    } else if crate::random_test::random::random_in(random, 1) > 0 {
        (at, rest(random))
    } else {
        let d = tree[at]->Dir_0;
        let k = crate::random_test::random::random_in(rest(random), count - 1);
        let child = d.sub_dirs[d.sub_names[k]] as int;
        if at < child < tree.len() {
            selected(tree, child, rest(rest(random)))
        } else {
            (at, rest(rest(random)))
        }
    }
}

/// The name in a directory that the next random byte chooses.
pub open spec fn random_name(d: DirView, random: Seq<u8>) -> Seq<char> {
    d.sub_names[crate::random_test::random::random_in(random, d.sub_names.len() - 1)]
}

/// What random bytes choose to do to a directory, and the random bytes that are left.
pub open spec fn dir_operation(d: DirView, idx: u32, random: Seq<u8>) -> (OperationView, Seq<u8>) {
    let id = crate::random_test::random::random_in(random, DIR_OP_NUM - 1);
    let new_name = crate::random_test::names::decimal(idx as nat);
    let r1 = rest(random);
    let some = d.sub_names.len() > 0;
    if id == CREATE_FILE_ID {
        (OperationView::Create(new_name, InodeType::File), r1)
    } else if id == CREATE_DIR_ID {
        (OperationView::Create(new_name, InodeType::Dir), r1)
    } else if id == UNLINK_ID && some {
        (OperationView::Unlink(random_name(d, r1)), rest(r1))
    } else if id == RMDIR_ID && some {
        (OperationView::Rmdir(random_name(d, r1)), rest(r1))
    } else if id == LOOKUP_ID && some {
        (OperationView::Lookup(random_name(d, r1)), rest(r1))
    } else if id == READDIR_ID {
        (OperationView::Readdir(), r1)
    } else if id == RENAME_ID && some {
        let old_name = random_name(d, r1);
        let r2 = rest(r1);
        let r3 = rest(r2);
        if crate::random_test::random::random_in(r2, 1) > 0 {
            (OperationView::Rename(old_name, random_name(d, r3)), rest(r3))
        } else {
            (OperationView::Rename(old_name, new_name), r3)
        }
    } else {
        (OperationView::Create(new_name, InodeType::File), r1)
    }
}

/// What random bytes choose to do to a file, and the random bytes that are left.
pub open spec fn file_operation(f: FileView, random: Seq<u8>) -> (OperationView, Seq<u8>) {
    let id = crate::random_test::random::random_in(random, FILE_OP_NUM - 1);
    let r1 = rest(random);
    if id == READ_ID || id == WRITE_ID {
        let (offset, len) = crate::random_test::random::random_place(
            r1,
            MAX_PAGE_PER_FILE * PAGE_SIZE,
        );
        (
            if id == READ_ID {
                OperationView::Read(offset, len)
            } else {
                OperationView::Write(offset, len)
            },
            rest(rest(r1)),
        )
    } else if id == RESIZE_ID {
        let size = crate::random_test::random::random_in(r1, MAX_PAGE_PER_FILE as int) * PAGE_SIZE;
        (
            OperationView::Resize(
                if size >= f.contents.len() {
                    size as usize
                } else {
                    f.contents.len() as usize
                },
            ),
            rest(r1),
        )
    } else {
        (OperationView::Read(0, f.valid_len), r1)
    }
}

/// The file or directory that random bytes choose, what they choose to do to it, and
/// the random bytes that are left.
pub open spec fn random_operation(
    tree: Seq<DentryView>,
    root: int,
    idx: u32,
    random: Seq<u8>,
) -> (int, OperationView, Seq<u8>) {
    let (at, r1) = selected(tree, root, random);
    let (op, r2) = match tree[at] {
        DentryView::Dir(d) => dir_operation(d, idx, r1),
        DentryView::File(f) => file_operation(f, r1),
    };
    (at, op, r2)
}

/// What is chosen is a file or directory of the model, and can be done to it as long as
/// files are not too large.
pub proof fn law_random_operation_fits(
    tree: Seq<DentryView>,
    root: int,
    idx: u32,
    random: Seq<u8>,
)
    requires
        crate::random_test::model_wf(tree),
        0 <= root < tree.len(),
        forall|i: int|
            0 <= i < tree.len() ==> ((#[trigger] tree[i]) matches DentryView::File(f)
                ==> f.contents.len() + PAGE_SIZE <= usize::MAX),
    ensures
        ({
            let (at, op, _) = random_operation(tree, root, idx, random);
            &&& root <= at < tree.len()
            &&& crate::random_test::file::file_operation_fits(op)
        }),
{
    lemma_selected(tree, root, random);
    let (at, r1) = selected(tree, root, random);
    let r2 = rest(r1);
    let r3 = rest(r2);
    crate::random_test::random::law_random_in_range(r2, MAX_PAGE_PER_FILE * PAGE_SIZE - 1);
    let offset = crate::random_test::random::random_in(r2, MAX_PAGE_PER_FILE * PAGE_SIZE - 1);
    crate::random_test::random::law_random_in_range(r3, MAX_PAGE_PER_FILE * PAGE_SIZE - offset);
    crate::random_test::random::law_random_in_range(r2, MAX_PAGE_PER_FILE as int);
    assert(tree[at].wf(at, tree.len() as int));
}

/// What is chosen is in the model.
proof fn lemma_selected(tree: Seq<DentryView>, at: int, random: Seq<u8>)
    requires
        0 <= at < tree.len(),
    ensures
        at <= selected(tree, at, random).0 < tree.len(),
    decreases tree.len() - at,
{
    let count = sub_count(tree[at]);
    if count != 0 && !(crate::random_test::random::random_in(random, 1) > 0) {
        let d = tree[at]->Dir_0;
        let k = crate::random_test::random::random_in(rest(random), count - 1);
        let child = d.sub_dirs[d.sub_names[k]] as int;
        if at < child < tree.len() {
            lemma_selected(tree, child, rest(rest(random)));
        }
    }
}

/// Chooses a file or directory at or below the one with the number `root`.
pub fn random_select_from_dir_tree(model: &FsInMemory, root: usize, random: &mut RandomSource) -> (at:
    usize)
    requires
        crate::random_test::model_wf(model@),
        root < model@.len(),
        old(random).wf(),
    ensures
        final(random).wf(),
        (at as int, final(random)@) == selected(model@, root as int, old(random)@),
        at < model@.len(),
{
    let ghost total = selected(model@, root as int, random@);
    let mut at: usize = root;
    loop
        invariant
            crate::random_test::model_wf(model@),
            at < model@.len(),
            random.wf(),
            total == selected(model@, root as int, old(random)@),
            total == selected(model@, at as int, random@),
        decreases model@.len() - at,
    {
        assert(model@[at as int].wf(at as int, model@.len() as int));
        match model.dentry(at) {
            DentryInMemory::File(_) => {
                return at;
            },
            DentryInMemory::Dir(dir) => {
                let count: usize = dir.sub_names.len();
                if count == 0 {
                    return at;
                }
                if random.get_random_in(1) > 0 {
                    return at;
                }
                let k: usize = random.get_random_in(count - 1);
                assert(dir@.sub_names[k as int] == dir.sub_names@[k as int]@);
                assert(dir@.sub_names.contains(dir@.sub_names[k as int]));
                assert(dir@.sub_dirs.contains_key(dir@.sub_names[k as int]));
                match dir.sub_dirs.get(dir.sub_names[k].as_str()) {
                    None => {
                        return at;
                    },
                    Some(child) => {
                        at = child;
                    },
                }
            },
        }
    }
}

impl DirInMemory {
    /// Chooses a name in the directory.
    fn choose_name(&self, random: &mut RandomSource) -> (name: String)
        requires
            old(random).wf(),
            0 < self@.sub_names.len(),
        ensures
            final(random).wf(),
            name@ == random_name(self@, old(random)@),
            final(random)@ == rest(old(random)@),
    {
        let k: usize = random.get_random_in(self.sub_names.len() - 1);
        self.sub_names[k].clone()
    }

    /// Chooses what to do to the directory.
    fn choose_operation(&self, idx: u32, random: &mut RandomSource) -> (op: Operation)
        requires
            old(random).wf(),
        ensures
            final(random).wf(),
            (op@, final(random)@) == dir_operation(self@, idx, old(random)@),
    {
        let id: usize = random.get_random_in(DIR_OP_NUM - 1);
        let some: bool = self.sub_names.len() > 0;
        if id == CREATE_FILE_ID {
            Operation::Create(number_name(idx), InodeType::File)
        } else if id == CREATE_DIR_ID {
            Operation::Create(number_name(idx), InodeType::Dir)
        } else if id == UNLINK_ID && some {
            Operation::Unlink(self.choose_name(random))
        } else if id == RMDIR_ID && some {
            Operation::Rmdir(self.choose_name(random))
        } else if id == LOOKUP_ID && some {
            Operation::Lookup(self.choose_name(random))
        } else if id == READDIR_ID {
            Operation::Readdir()
        } else if id == RENAME_ID && some {
            let old_name: String = self.choose_name(random);
            if random.get_random_in(1) > 0 {
                let new_name: String = self.choose_name(random);
                Operation::Rename(old_name, new_name)
            } else {
                Operation::Rename(old_name, number_name(idx))
            }
        } else {
            Operation::Create(number_name(idx), InodeType::File)
        }
    }
}

impl FileInMemory {
    /// Chooses what to do to the file.
    fn choose_operation(&self, random: &mut RandomSource) -> (op: Operation)
        requires
            old(random).wf(),
        ensures
            final(random).wf(),
            (op@, final(random)@) == file_operation(self@, old(random)@),
    {
        let id: usize = random.get_random_in(FILE_OP_NUM - 1);
        if id == READ_ID {
            let (offset, len): (usize, usize) = random.generate_random_offset_len(
                MAX_PAGE_PER_FILE * PAGE_SIZE,
            );
            Operation::Read(offset, len)
        } else if id == WRITE_ID {
            let (offset, len): (usize, usize) = random.generate_random_offset_len(
                MAX_PAGE_PER_FILE * PAGE_SIZE,
            );
            Operation::Write(offset, len)
        } else if id == RESIZE_ID {
            let size: usize = random.get_random_in(MAX_PAGE_PER_FILE) * PAGE_SIZE;
            let len: usize = self.contents.len();
            Operation::Resize(
                if size >= len {
                    size
                } else {
                    len
                },
            )
        } else {
            Operation::Read(0, self.valid_len)
        }
    }
}

/// Chooses a file or directory at or below the one with the number `root`, and what to
/// do to it. New names are the digits of `idx`.
pub fn generate_random_operation(
    model: &FsInMemory,
    root: usize,
    idx: u32,
    random: &mut RandomSource,
) -> (chosen: (usize, Operation))
    requires
        crate::random_test::model_wf(model@),
        root < model@.len(),
        old(random).wf(),
    ensures
        final(random).wf(),
        (chosen.0 as int, chosen.1@, final(random)@) == random_operation(
            model@,
            root as int,
            idx,
            old(random)@,
        ),
        chosen.0 < model@.len(),
{
    let at: usize = random_select_from_dir_tree(model, root, random);
    let op: Operation = match model.dentry(at) {
        DentryInMemory::Dir(dir) => dir.choose_operation(idx, random),
        DentryInMemory::File(file) => file.choose_operation(random),
    };
    (at, op)
}

/// What is done to a directory at random: the next random number from 0 to 6 says what. New
/// names are the digits of `idx`; names that are removed, looked up or renamed are chosen from
/// those of the directory, and where it has none, a file is made. What is renamed gets, as one
/// more random number says, another name of the directory or a new one.
pub proof fn law_dir_operation(d: DirView, idx: u32, random: Seq<u8>)
    ensures
        ({
            let id = crate::random_test::random::random_in(random, 6);
            let new_name = crate::random_test::names::decimal(idx as nat);
            let some = d.sub_names.len() > 0;
            let r1 = crate::random_test::random::random_rest(random, 1);
            let r2 = crate::random_test::random::random_rest(r1, 1);
            let r3 = crate::random_test::random::random_rest(r2, 1);
            let all = d.sub_names.len() - 1;
            let chosen = d.sub_names[crate::random_test::random::random_in(r1, all)];
            let other = d.sub_names[crate::random_test::random::random_in(r3, all)];
            let (op, left) = dir_operation(d, idx, random);
            &&& id == 0 ==> op == OperationView::Create(new_name, InodeType::File)
            &&& id == 1 ==> op == OperationView::Create(new_name, InodeType::Dir)
            &&& id == 2 && some ==> op == OperationView::Unlink(chosen)
            &&& id == 3 && some ==> op == OperationView::Rmdir(chosen)
            &&& id == 4 && some ==> op == OperationView::Lookup(chosen)
            &&& id == 5 ==> op == OperationView::Readdir()
            &&& id == 6 && some ==> op == OperationView::Rename(
                chosen,
                if crate::random_test::random::random_in(r2, 1) > 0 {
                    other
                } else {
                    new_name
                },
            )
            &&& !some && id != 1 && id != 5 ==> op == OperationView::Create(
                new_name,
                InodeType::File,
            )
            &&& op is Create || op is Readdir ==> left == r1
            &&& op is Unlink || op is Rmdir || op is Lookup ==> left == r2
            &&& op matches OperationView::Rename(_, name) ==> left == r3 || left
                == crate::random_test::random::random_rest(r3, 1)
        }),
{
    crate::random_test::random::law_random_in_range(random, 6);
}

/// What is done to a file at random: the next random number from 0 to 2 says what. Bytes of the
/// first ten pages are read or written, or the file is resized to as many as ten pages, but
/// never so that it loses bytes.
pub proof fn law_file_operation(f: FileView, random: Seq<u8>)
    requires
        f.contents.len() <= usize::MAX,
    ensures
        ({
            let id = crate::random_test::random::random_in(random, 2);
            let r1 = crate::random_test::random::random_rest(random, 1);
            let r2 = crate::random_test::random::random_rest(r1, 1);
            let (op, left) = file_operation(f, random);
            let offset = crate::random_test::random::random_in(r1, 40959);
            let len = crate::random_test::random::random_in(r2, 40960 - offset);
            let pages = crate::random_test::random::random_in(r1, 10);
            &&& 0 <= offset && 0 <= len && offset + len <= 40960
            &&& id == 0 ==> op == OperationView::Read(offset as usize, len as usize)
            &&& id == 1 ==> op == OperationView::Write(offset as usize, len as usize)
            &&& id == 0 || id == 1 ==> left == crate::random_test::random::random_rest(r2, 1)
            &&& id == 2 ==> left == r2 && op is Resize && ({
                let size = op->Resize_0;
                &&& size >= f.contents.len()
                &&& size >= 4096 * pages
                &&& size == f.contents.len() || size == 4096 * pages
            })
            &&& id == 0 || id == 1 || id == 2
        }),
{
    let r1 = crate::random_test::random::random_rest(random, 1);
    let r2 = crate::random_test::random::random_rest(r1, 1);
    crate::random_test::random::law_random_in_range(random, 2);
    crate::random_test::random::law_random_in_range(r1, 40959);
    let offset = crate::random_test::random::random_in(r1, 40959);
    crate::random_test::random::law_random_in_range(r2, 40960 - offset);
    crate::random_test::random::law_random_in_range(r1, 10);
}

/// What is chosen at random: a file, or a directory without names, is chosen itself; a directory
/// with names is chosen itself where the next random number from 0 to 1 is 1, and otherwise
/// one of its entries is gone to, which is chosen from in the same way.
pub proof fn law_selected(tree: Seq<DentryView>, at: int, random: Seq<u8>)
    requires
        crate::random_test::model_wf(tree),
        0 <= at < tree.len(),
    ensures
        tree[at] is File ==> selected(tree, at, random) == (at, random),
        tree[at] matches DentryView::Dir(d) ==> {
            let r1 = crate::random_test::random::random_rest(random, 1);
            let r2 = crate::random_test::random::random_rest(r1, 1);
            let k = crate::random_test::random::random_in(r1, d.sub_names.len() - 1);
            &&& d.sub_names.len() == 0 ==> selected(tree, at, random) == (at, random)
            &&& d.sub_names.len() > 0 && crate::random_test::random::random_in(random, 1) == 1
                ==> selected(tree, at, random) == (at, r1)
            &&& d.sub_names.len() > 0 && crate::random_test::random::random_in(random, 1) == 0 ==> {
                &&& d.sub_dirs.contains_key(d.sub_names[k])
                &&& selected(tree, at, random) == selected(
                    tree,
                    d.sub_dirs[d.sub_names[k]] as int,
                    r2,
                )
            }
        },
{
    if tree[at] is Dir {
        let d = tree[at]->Dir_0;
        assert(tree[at].wf(at, tree.len() as int));
        let r1 = crate::random_test::random::random_rest(random, 1);
        if d.sub_names.len() > 0 {
            crate::random_test::random::law_random_in_range(random, 1);
            crate::random_test::random::law_random_in_range(r1, d.sub_names.len() - 1);
            let k = crate::random_test::random::random_in(r1, d.sub_names.len() - 1);
            assert(d.sub_names.contains(d.sub_names[k]));
            assert(d.sub_dirs.contains_key(d.sub_names[k]));
        }
    }
}

/// What is chosen to be done is done to what is chosen, as a file or as a directory, whichever
/// it is, with the random bytes that are left of choosing it.
pub proof fn law_random_operation(tree: Seq<DentryView>, root: int, idx: u32, random: Seq<u8>)
    ensures
        ({
            let (at, left) = selected(tree, root, random);
            let (chosen, op, rest) = random_operation(tree, root, idx, random);
            &&& chosen == at
            &&& tree[at] matches DentryView::Dir(d) ==> (op, rest) == dir_operation(d, idx, left)
            &&& tree[at] matches DentryView::File(f) ==> (op, rest) == file_operation(f, left)
        }),
{
}

} // verus!
