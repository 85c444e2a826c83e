//! A model of a file system that is held against a real one.

pub mod agree_dir;
pub mod agree_file;
pub mod dir;
pub mod file;
pub mod generate;
pub mod names;
pub mod random;
pub mod sub_dirs;
pub mod verdict;

use vstd::prelude::*;
use crate::exfat::fs::{ExfatInode, FsState};
use crate::exfat::inode::InodeType;
use crate::random_test::sub_dirs::SubDirs;

verus! {

/// A file of the model.
pub struct FileInMemory {
    /// Its name.
    pub name: String,
    /// The inode that it is held against.
    pub inode: ExfatInode,
    /// The number of bytes that were written.
    pub valid_len: usize,
    /// What it holds.
    pub contents: Vec<u8>,
}

/// A directory of the model.
pub struct DirInMemory {
    /// The number of directories above it.
    pub depth: u32,
    /// Its name.
    pub name: String,
    /// The inode that it is held against.
    pub inode: ExfatInode,
    /// The names in it.
    pub sub_names: Vec<String>,
    /// The numbers of what is in it.
    pub sub_dirs: SubDirs,
}

/// A file or directory of the model.
pub enum DentryInMemory {
    File(FileInMemory),
    Dir(DirInMemory),
}

/// Something that is done to a file or directory.
#[derive(Debug)]
pub enum Operation {
    Read(usize, usize),
    Write(usize, usize),
    Resize(usize),
    Create(String, InodeType),
    Lookup(String),
    Readdir(),
    Unlink(String),
    Rmdir(String),
    Rename(String, String),
}

/// The model: all files and directories, each of them with a number.
pub struct FsInMemory {
    dentries: Vec<DentryInMemory>,
}

/// The state of a file of the model.
#[verifier::ext_equal]
pub struct FileView {
    pub name: Seq<char>,
    pub inode: int,
    pub valid_len: usize,
    pub contents: Seq<u8>,
}

/// The state of a directory of the model.
#[verifier::ext_equal]
pub struct DirView {
    pub depth: u32,
    pub name: Seq<char>,
    pub inode: int,
    pub sub_names: Seq<Seq<char>>,
    pub sub_dirs: Map<Seq<char>, usize>,
}

/// The state of a file or directory of the model.
#[verifier::ext_equal]
pub enum DentryView {
    File(FileView),
    Dir(DirView),
}

/// What is done.
#[verifier::ext_equal]
pub enum OperationView {
    Read(usize, usize),
    Write(usize, usize),
    Resize(usize),
    Create(Seq<char>, InodeType),
    Lookup(Seq<char>),
    Readdir(),
    Unlink(Seq<char>),
    Rmdir(Seq<char>),
    Rename(Seq<char>, Seq<char>),
}

impl View for FileInMemory {
    type V = FileView;

    open spec fn view(&self) -> FileView {
        FileView {
            name: self.name@,
            inode: self.inode.id(),
            valid_len: self.valid_len,
            contents: self.contents@,
        }
    }
}

impl View for DirInMemory {
    type V = DirView;

    open spec fn view(&self) -> DirView {
        DirView {
            depth: self.depth,
            name: self.name@,
            inode: self.inode.id(),
            sub_names: crate::random_test::names::texts(self.sub_names@),
            sub_dirs: crate::random_test::sub_dirs::sub_entries(&self.sub_dirs),
        }
    }
}

impl View for DentryInMemory {
    type V = DentryView;

    open spec fn view(&self) -> DentryView {
        match self {
            DentryInMemory::File(file) => DentryView::File(file@),
            DentryInMemory::Dir(dir) => DentryView::Dir(dir@),
        }
    }
}

impl View for Operation {
    type V = OperationView;

    open spec fn view(&self) -> OperationView {
        match self {
            Operation::Read(offset, len) => OperationView::Read(*offset, *len),
            Operation::Write(offset, len) => OperationView::Write(*offset, *len),
            Operation::Resize(size) => OperationView::Resize(*size),
            Operation::Create(name, type_) => OperationView::Create(name@, *type_),
            Operation::Lookup(name) => OperationView::Lookup(name@),
            Operation::Readdir() => OperationView::Readdir(),
            Operation::Unlink(name) => OperationView::Unlink(name@),
            Operation::Rmdir(name) => OperationView::Rmdir(name@),
            Operation::Rename(old_name, new_name) => OperationView::Rename(old_name@, new_name@),
        }
    }
}

/// The states of files and directories.
pub open spec fn dentry_views(dentries: Seq<DentryInMemory>) -> Seq<DentryView> {
    Seq::new(dentries.len(), |i: int| dentries[i]@)
}

impl View for FsInMemory {
    type V = Seq<DentryView>;

    closed spec fn view(&self) -> Seq<DentryView> {
        dentry_views(self.dentries@)
    }
}

impl FileView {
    /// What was written is part of what the file holds.
    pub open spec fn wf(self) -> bool {
        self.valid_len <= self.contents.len()
    }
}

impl DirView {
    /// The names are those of what is in the directory, each of them once, and what is
    /// in the directory has greater numbers than the directory itself.
    pub open spec fn wf(self, at: int, count: int) -> bool {
        &&& self.sub_names.no_duplicates()
        &&& forall|name: Seq<char>|
            self.sub_names.contains(name) <==> #[trigger] self.sub_dirs.contains_key(name)
        &&& forall|name: Seq<char>| #[trigger]
            self.sub_dirs.contains_key(name) ==> at < self.sub_dirs[name] < count
    }
}

impl DentryView {
    /// The number of the inode.
    pub open spec fn inode(self) -> int {
        match self {
            DentryView::File(file) => file.inode,
            DentryView::Dir(dir) => dir.inode,
        }
    }

    /// What holds of the file or directory with the number `at` of a model with `count`
    /// of them.
    pub open spec fn wf(self, at: int, count: int) -> bool {
        match self {
            DentryView::File(file) => file.wf(),
            DentryView::Dir(dir) => dir.wf(at, count),
        }
    }
}

/// What holds of every model.
pub open spec fn model_wf(tree: Seq<DentryView>) -> bool {
    forall|i: int|
        0 <= i < tree.len() ==> (#[trigger] tree[i]).wf(i, tree.len() as int)
}

/// Whether the inodes that a model is held against are those of a file system.
pub open spec fn model_of(tree: Seq<DentryView>, s: FsState) -> bool {
    forall|i: int|
        0 <= i < tree.len() ==> 0 <= (#[trigger] tree[i]).inode() < s.nodes.len()
}

/// The model of a file system of which nothing is known but its root.
pub fn new_fs_in_memory(root: ExfatInode) -> (model: FsInMemory)
    ensures
        model@.len() == 1,
        model@[0] is Dir,
        model@[0]->Dir_0.depth == 0,
        model@[0]->Dir_0.name == "root"@,
        model@[0]->Dir_0.inode == root.id(),
        model@[0]->Dir_0.sub_names == Seq::<Seq<char>>::empty(),
        model@[0]->Dir_0.sub_dirs == crate::random_test::sub_dirs::no_entries(),
        model_wf(model@),
{
    let mut dentries: Vec<DentryInMemory> = Vec::new();
    let root_dir: DirInMemory = DirInMemory {
        depth: 0,
        name: "root".to_string(),
        inode: root,
        sub_names: Vec::new(),
        sub_dirs: SubDirs::new(),
    };
    assert(root_dir@.sub_names =~= Seq::<Seq<char>>::empty());
    dentries.push(DentryInMemory::Dir(root_dir));
    let model: FsInMemory = FsInMemory { dentries };
    assert(model@[0] == DentryView::Dir(root_dir@));
    model
}

impl DentryInMemory {
    /// The number of names in a directory.
    pub fn sub_cnt(&self) -> (n: usize)
        ensures
            n == (match self@ {
                DentryView::File(_) => 0,
                DentryView::Dir(dir) => dir.sub_names.len(),
            }),
    {
        match self {
            DentryInMemory::Dir(dir) => dir.sub_names.len(),
            DentryInMemory::File(_) => 0,
        }
    }
}

impl FsInMemory {
    /// The number of files and directories.
    pub fn count(&self) -> (n: usize)
        ensures
            n == self@.len(),
    {
        self.dentries.len()
    }

    /// A file or directory.
    pub fn dentry(&self, at: usize) -> (dentry: &DentryInMemory)
        requires
            at < self@.len(),
        ensures
            dentry@ == self@[at as int],
    {
        &self.dentries[at]
    }
}

} // verus!
