//! What is done to files.

use vstd::prelude::*;
use crate::bytes::{overwrite, resize_bytes};
use crate::errno::Errno;
use crate::exfat::constants::PAGE_SIZE;
use crate::exfat::fs::{ExfatFS, FsState};
use crate::random_test::random::RandomSource;
use crate::random_test::{FileInMemory, FileView, Operation, OperationView};

verus! {

/// Zeros.
pub open spec fn zeros(len: int) -> Seq<u8> {
    Seq::new(len as nat, |k: int| 0u8)
}

/// What reading the file system makes of it, and whether it gives what the model holds.
pub open spec fn read_agrees(f: FileView, s: FsState, offset: int, len: int) -> (FsState, bool) {
    let start = crate::exfat::fs::io::lesser(offset, f.valid_len as int);
    let end = crate::exfat::fs::io::lesser(offset + len, f.valid_len as int);
    let (s1, r1) = crate::exfat::fs::io::file_bytes_read(s, f.inode, offset, len);
    match r1 {
        Err(_) => (s1, false),
        Ok(bytes) => (
            s1,
            crate::bytes::overwritten(zeros(len), 0, bytes).take(end - start)
                == f.contents.subrange(start, end),
        ),
    }
}

/// Where a write begins: not behind what was written before.
pub open spec fn write_start(f: FileView, offset: int) -> int {
    crate::exfat::fs::io::lesser(offset, f.valid_len as int)
}

/// A file of the model to which bytes were written.
pub open spec fn model_written(f: FileView, at: int, bytes: Seq<u8>) -> FileView {
    let end = at + bytes.len();
    let contents = if end > f.contents.len() {
        crate::bytes::resized(f.contents, end)
    } else {
        f.contents
    };
    FileView {
        valid_len: if end > f.valid_len {
            end as usize
        } else {
            f.valid_len
        },
        contents: crate::bytes::overwritten(contents, at, bytes),
        ..f
    }
}

/// A file of the model that was resized.
pub open spec fn model_resized(f: FileView, new_size: usize) -> FileView {
    FileView {
        valid_len: crate::exfat::fs::io::lesser(f.valid_len as int, new_size as int) as usize,
        contents: crate::bytes::resized(f.contents, new_size as int),
        ..f
    }
}

/// What doing something to a file makes of the model, the file system and the random
/// bytes, and whether the file system did what the model says.
pub open spec fn file_executed(
    f: FileView,
    s: FsState,
    op: OperationView,
    random: Seq<u8>,
) -> (FileView, FsState, Seq<u8>, bool) {
    match op {
        OperationView::Read(offset, len) => {
            let (s1, agrees) = read_agrees(f, s, offset as int, len as int);
            (f, s1, random, agrees)
        },
        OperationView::Write(offset, len) => {
            let at = write_start(f, offset as int);
            let n = offset + len - at;
            let bytes = crate::random_test::random::random_bytes(random, n);
            let (s1, r1) = crate::exfat::fs::io::file_written(s, f.inode, at, bytes);
            let rest = crate::random_test::random::random_rest(random, n);
            if r1 is Ok {
                (model_written(f, at, bytes), s1, rest, true)
            } else {
                (f, s1, rest, false)
            }
        },
        OperationView::Resize(new_size) => {
            let (s1, r1) = crate::exfat::fs::file::file_resized(s, f.inode, new_size);
            if r1 is Ok {
                (model_resized(f, new_size), s1, random, true)
            } else {
                (f, s1, random, false)
            }
        },
        _ => (f, s, random, true),
    }
}

/// Whether an operation can be done to a file without a number growing too large.
pub open spec fn file_operation_fits(op: OperationView) -> bool {
    match op {
        OperationView::Read(offset, len) => offset + len <= usize::MAX,
        OperationView::Write(offset, len) => offset + len + PAGE_SIZE <= usize::MAX,
        OperationView::Resize(new_size) => new_size + PAGE_SIZE <= usize::MAX,
        _ => true,
    }
}

/// A file of the model stays well-formed.
pub proof fn law_file_stays_wf(f: FileView, s: FsState, op: OperationView, random: Seq<u8>)
    requires
        f.wf(),
        file_operation_fits(op),
    ensures
        file_executed(f, s, op, random).0.wf(),
        file_executed(f, s, op, random).0.inode == f.inode,
{
}

/// Bytes that were written are read back from the model.
pub proof fn law_model_read_after_write(f: FileView, at: int, bytes: Seq<u8>)
    requires
        f.wf(),
        0 <= at <= f.valid_len,
        at + bytes.len() <= usize::MAX,
    ensures
        model_written(f, at, bytes).contents.subrange(at, at + bytes.len()) == bytes,
        at + bytes.len() <= model_written(f, at, bytes).valid_len,
        forall|k: int|
            0 <= k < f.valid_len && !(at <= k < at + bytes.len()) ==> #[trigger] model_written(
                f,
                at,
                bytes,
            ).contents[k] == f.contents[k],
{
    assert(model_written(f, at, bytes).contents.subrange(at, at + bytes.len()) =~= bytes);
}

/// Whether the first bytes of `buf` are those of `contents` from `start` up to `end`.
fn begins_with(buf: &Vec<u8>, contents: &Vec<u8>, start: usize, end: usize) -> (result: bool)
    requires
        start <= end <= contents@.len(),
        end - start <= buf@.len(),
    ensures
        result == (buf@.take(end - start) == contents@.subrange(start as int, end as int)),
{
    let mut k: usize = 0;
    while k < end - start
        invariant
            start <= end <= contents@.len(),
            end - start <= buf@.len(),
            k <= end - start,
            forall|j: int| 0 <= j < k ==> buf@[j] == #[trigger] contents@[start + j],
        decreases end - start - k,
    {
        if buf[k] != contents[start + k] {
            proof {
                assert(buf@.take(end - start)[k as int] != contents@.subrange(
                    start as int,
                    end as int,
                )[k as int]);
            }
            return false;
        }
        k = k + 1;
    }
    assert(buf@.take(end - start) =~= contents@.subrange(start as int, end as int)) by {
        assert forall|j: int| 0 <= j < end - start implies buf@[j] == contents@.subrange(
            start as int,
            end as int,
        )[j] by {
            assert(contents@[start + j] == buf@[j]);
        }
    }
    true
}

impl FileInMemory {
    /// Does something to the file and to the inode that it is held against, and returns
    /// whether the file system did what the model says.
    pub fn execute_and_test(&mut self, fs: &mut ExfatFS, op: Operation, random: &mut RandomSource) ->
        (agrees: bool)
        requires
            old(self)@.wf(),
            old(fs).wf(),
            old(self).inode.of(old(fs)@),
            old(random).wf(),
            file_operation_fits(op@),
        ensures
            final(self)@.wf(),
            final(fs).wf(),
            final(random).wf(),
            (final(self)@, final(fs)@, final(random)@, agrees) == file_executed(
                old(self)@,
                old(fs)@,
                op@,
                old(random)@,
            ),
            final(fs)@.nodes.len() == old(fs)@.nodes.len(),
    {
        proof {
            law_file_stays_wf(self@, fs@, op@, random@);
        }
        match &op {
            Operation::Read(offset, len) => self.read_and_test(fs, *offset, *len),
            Operation::Write(offset, len) => self.write_and_test(fs, *offset, *len, random),
            Operation::Resize(new_size) => {
                let result: Result<(), Errno> = self.inode.resize(fs, *new_size);
                if result.is_err() {
                    return false;
                }
                resize_bytes(&mut self.contents, *new_size);
                if self.valid_len > *new_size {
                    self.valid_len = *new_size;
                }
                true
            },
            _ => true,
        }
    }

    /// Reads from the inode, and returns whether that gives what the model holds.
    fn read_and_test(&self, fs: &mut ExfatFS, offset: usize, len: usize) -> (agrees: bool)
        requires
            self@.wf(),
            old(fs).wf(),
            self.inode.of(old(fs)@),
            offset + len <= usize::MAX,
        ensures
            final(fs).wf(),
            (final(fs)@, agrees) == read_agrees(self@, old(fs)@, offset as int, len as int),
            final(fs)@.nodes.len() == old(fs)@.nodes.len(),
    {
        let mut buf: Vec<u8> = Vec::new();
        resize_bytes(&mut buf, len);
        assert(buf@ =~= zeros(len as int));
        let result: Result<usize, Errno> = self.inode.read_at(fs, offset, &mut buf);
        if result.is_err() {
            return false;
        }
        let start: usize = if offset <= self.valid_len {
            offset
        } else {
            self.valid_len
        };
        let end: usize = if offset + len <= self.valid_len {
            offset + len
        } else {
            self.valid_len
        };
        begins_with(&buf, &self.contents, start, end)
    }

    /// Writes random bytes to the inode and to the model, without leaving a hole.
    fn write_and_test(
        &mut self,
        fs: &mut ExfatFS,
        offset: usize,
        len: usize,
        random: &mut RandomSource,
    ) -> (agrees: bool)
        requires
            old(self)@.wf(),
            old(fs).wf(),
            old(self).inode.of(old(fs)@),
            old(random).wf(),
            offset + len + PAGE_SIZE <= usize::MAX,
        ensures
            final(fs).wf(),
            final(random).wf(),
            (final(self)@, final(fs)@, final(random)@, agrees) == file_executed(
                old(self)@,
                old(fs)@,
                OperationView::Write(offset, len),
                old(random)@,
            ),
            final(fs)@.nodes.len() == old(fs)@.nodes.len(),
    {
        let at: usize = if offset <= self.valid_len {
            offset
        } else {
            self.valid_len
        };
        let n: usize = offset + len - at;
        let buf: Vec<u8> = random.getrandom(n);
        let result: Result<usize, Errno> = self.inode.write_at(fs, at, &buf);
        if result.is_err() {
            return false;
        }
        if at + n > self.contents.len() {
            resize_bytes(&mut self.contents, at + n);
        }
        if at + n > self.valid_len {
            self.valid_len = at + n;
        }
        overwrite(&mut self.contents, at, &buf);
        true
    }
}

} // verus!
