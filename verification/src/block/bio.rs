//! Block I/O.

use core::ops::Range;
use vstd::prelude::*;
use crate::block::id::{Sid, BLOCK_SIZE, SECTOR_SIZE};
use crate::block::request_queue::{BioRequestQueue, Handed};
use crate::bytes::{copy_range, overwrite};

verus! {

/// What an I/O does.
#[derive(Clone, Copy, Debug, PartialEq, Eq, Structural)]
pub enum BioType {
    /// Read sectors from the device.
    Read,
    /// Write sectors to the device.
    Write,
    /// Write the cache of the device back.
    Flush,
    /// Forget sectors.
    Discard,
}

impl BioType {
    /// The number of a type.
    pub open spec fn raw(self) -> u8 {
        match self {
            BioType::Read => 0,
            BioType::Write => 1,
            BioType::Flush => 2,
            BioType::Discard => 3,
        }
    }

    /// The number of the type.
    pub fn to_raw(self) -> (raw: u8)
        ensures
            raw == self.raw(),
    {
        match self {
            BioType::Read => 0,
            BioType::Write => 1,
            BioType::Flush => 2,
            BioType::Discard => 3,
        }
    }

    /// The type with a number.
    pub fn from_raw(raw: u8) -> (result: Option<BioType>)
        ensures
            result matches Some(type_) ==> type_.raw() == raw,
            result is None <==> raw > 3,
    {
        if raw == 0 {
            Some(BioType::Read)
        } else if raw == 1 {
            Some(BioType::Write)
        } else if raw == 2 {
            Some(BioType::Flush)
        } else if raw == 3 {
            Some(BioType::Discard)
        } else {
            None
        }
    }
}

/// How far an I/O is.
#[derive(Clone, Copy, PartialEq, Eq, Debug, Structural)]
pub enum BioStatus {
    /// It was not submitted.
    Init,
    /// It was submitted.
    Submit,
    /// It is done.
    Complete,
    /// The device cannot do it.
    NotSupported,
    /// There is no room for it.
    NoSpace,
    /// It failed.
    IoError,
}

impl BioStatus {
    /// The number of a status.
    pub open spec fn raw(self) -> u32 {
        match self {
            BioStatus::Init => 0,
            BioStatus::Submit => 1,
            BioStatus::Complete => 2,
            BioStatus::NotSupported => 3,
            BioStatus::NoSpace => 4,
            BioStatus::IoError => 5,
        }
    }

    /// Whether an I/O with this status has come to its end.
    pub open spec fn is_final(self) -> bool {
        !(self is Init) && !(self is Submit)
    }

    /// The number of the status.
    pub fn to_raw(self) -> (raw: u32)
        ensures
            raw == self.raw(),
    {
        match self {
            BioStatus::Init => 0,
            BioStatus::Submit => 1,
            BioStatus::Complete => 2,
            BioStatus::NotSupported => 3,
            BioStatus::NoSpace => 4,
            BioStatus::IoError => 5,
        }
    }

    /// The status with a number.
    pub fn from_raw(raw: u32) -> (result: Option<BioStatus>)
        ensures
            result matches Some(status) ==> status.raw() == raw,
            result is None <==> raw > 5,
    {
        if raw == 0 {
            Some(BioStatus::Init)
        } else if raw == 1 {
            Some(BioStatus::Submit)
        } else if raw == 2 {
            Some(BioStatus::Complete)
        } else if raw == 3 {
            Some(BioStatus::NotSupported)
        } else if raw == 4 {
            Some(BioStatus::NoSpace)
        } else if raw == 5 {
            Some(BioStatus::IoError)
        } else {
            None
        }
    }
}

/// Different types have different numbers.
pub proof fn law_type_numbers_differ(a: BioType, b: BioType)
    requires
        a.raw() == b.raw(),
    ensures
        a == b,
{
}

/// Different statuses have different numbers.
pub proof fn law_status_numbers_differ(a: BioStatus, b: BioStatus)
    requires
        a.raw() == b.raw(),
    ensures
        a == b,
{
}

/// Why an I/O was not taken into a queue.
#[derive(Clone, Copy, PartialEq, Eq, Debug, Structural)]
pub enum BioEnqueueError {
    /// The queue is full.
    IsFull,
    /// The queue does not take it.
    Refused,
}

/// What an error of the block layer means to the rest of the system.
#[derive(Clone, Copy, PartialEq, Eq, Debug, Structural)]
pub enum DeviceError {
    /// There is not enough of something.
    NotEnoughResources,
}

impl From<BioEnqueueError> for DeviceError {
    fn from(error: BioEnqueueError) -> (result: Self) {
        DeviceError::NotEnoughResources
    }
}

impl vstd::std_specs::convert::FromSpecImpl<BioEnqueueError> for DeviceError {
    open spec fn obeys_from_spec() -> bool {
        true
    }

    open spec fn from_spec(error: BioEnqueueError) -> DeviceError {
        DeviceError::NotEnoughResources
    }
}

/// The pages of a segment.
#[derive(Debug)]
pub enum Pages {
    /// One page.
    Frame(Vec<u8>),
    /// Some pages that follow each other.
    Segment(Vec<u8>),
}

impl View for Pages {
    type V = Seq<u8>;

    open spec fn view(&self) -> Seq<u8> {
        match self {
            Pages::Frame(bytes) => bytes@,
            Pages::Segment(bytes) => bytes@,
        }
    }
}

/// A piece of memory that takes part in an I/O: some sectors.
#[derive(Debug)]
pub struct BioSegment {
    pages: Pages,
    offset: usize,
    len: usize,
}

/// What a segment is.
#[verifier::ext_equal]
pub struct SegmentView {
    /// The bytes of its pages.
    pub pages: Seq<u8>,
    /// Where in its pages it begins.
    pub offset: int,
    /// The number of bytes in it.
    pub len: int,
}

impl View for BioSegment {
    type V = SegmentView;

    closed spec fn view(&self) -> SegmentView {
        SegmentView {
            pages: self.pages@,
            offset: self.offset as int,
            len: self.len as int,
        }
    }
}

impl Clone for Pages {
    fn clone(&self) -> (pages: Self)
        ensures
            pages@ == self@,
    {
        match self {
            Pages::Frame(bytes) => {
                let copy: Vec<u8> = copy_range(bytes, 0, bytes.len());
                assert(copy@ =~= bytes@);
                Pages::Frame(copy)
            },
            Pages::Segment(bytes) => {
                let copy: Vec<u8> = copy_range(bytes, 0, bytes.len());
                assert(copy@ =~= bytes@);
                Pages::Segment(copy)
            },
        }
    }
}

impl Clone for BioSegment {
    fn clone(&self) -> (segment: Self)
        ensures
            segment@ == self@,
    {
        BioSegment { pages: self.pages.clone(), offset: self.offset, len: self.len }
    }
}

impl SegmentView {
    /// The bytes of the segment.
    pub open spec fn bytes(self) -> Seq<u8> {
        self.pages.subrange(self.offset, self.offset + self.len)
    }

    /// The segment is made of whole sectors of its pages.
    pub open spec fn wf(self) -> bool {
        &&& 0 <= self.offset
        &&& 0 <= self.len
        &&& self.offset % (SECTOR_SIZE as int) == 0
        &&& self.len % (SECTOR_SIZE as int) == 0
        &&& self.offset + self.len <= self.pages.len()
    }

    /// The number of sectors in the segment.
    pub open spec fn sectors(self) -> int {
        self.len / (SECTOR_SIZE as int)
    }
}

impl BioSegment {
    /// The segment is made of whole sectors of its pages.
    pub open spec fn wf(&self) -> bool {
        self@.wf()
    }

    /// A segment of some pages that follow each other.
    pub fn from_segment(segment: Vec<u8>, offset: usize, len: usize) -> (result: Self)
        requires
            offset % SECTOR_SIZE == 0,
            len % SECTOR_SIZE == 0,
            offset + len <= segment@.len(),
        ensures
            result.wf(),
            result@ == (SegmentView {
                pages: segment@,
                offset: offset as int,
                len: len as int,
            }),
    {
        BioSegment { pages: Pages::Segment(segment), offset, len }
    }

    /// A segment of one page.
    pub fn from_frame(frame: Vec<u8>, offset: usize, len: usize) -> (result: Self)
        requires
            offset % SECTOR_SIZE == 0,
            len % SECTOR_SIZE == 0,
            offset + len <= BLOCK_SIZE,
            frame@.len() == BLOCK_SIZE,
        ensures
            result.wf(),
            result@ == (SegmentView {
                pages: frame@,
                offset: offset as int,
                len: len as int,
            }),
    {
        BioSegment { pages: Pages::Frame(frame), offset, len }
    }

    /// The number of sectors in the segment.
    pub fn nsectors(&self) -> (n: Sid)
        ensures
            n.raw() == self@.sectors(),
    {
        Sid::from_offset(self.len)
    }

    /// The number of bytes in the segment.
    pub fn nbytes(&self) -> (n: usize)
        ensures
            n == self@.len,
    {
        self.len
    }

    /// Reads the bytes of the segment.
    pub fn reader(&self) -> (bytes: Vec<u8>)
        requires
            self.wf(),
        ensures
            bytes@ == self@.bytes(),
    {
        match &self.pages {
            Pages::Frame(page) => {
                let size: usize = page.len();
                assert(self.offset + self.len <= size);
                copy_range(page, self.offset, self.offset + self.len)
            },
            Pages::Segment(pages) => {
                let size: usize = pages.len();
                assert(self.offset + self.len <= size);
                copy_range(pages, self.offset, self.offset + self.len)
            },
        }
    }

    /// Writes the bytes that fit into the segment, from its beginning on, and returns
    /// how many there are.
    pub fn writer(&mut self, bytes: &Vec<u8>) -> (written: usize)
        requires
            old(self).wf(),
        ensures
            final(self).wf(),
            written == (if bytes@.len() <= old(self)@.len {
                bytes@.len() as int
            } else {
                old(self)@.len
            }),
            final(self)@ == (SegmentView {
                pages: crate::bytes::overwritten(
                    old(self)@.pages,
                    old(self)@.offset,
                    bytes@.take(written as int),
                ),
                ..old(self)@
            }),
    {
        let written: usize = if bytes.len() <= self.len {
            bytes.len()
        } else {
            self.len
        };
        let part: Vec<u8> = copy_range(bytes, 0, written);
        assert(part@ =~= bytes@.take(written as int));
        let offset: usize = self.offset;
        match &mut self.pages {
            Pages::Frame(page) => overwrite(page, offset, &part),
            Pages::Segment(pages) => overwrite(pages, offset, &part),
        }
        written
    }
}

/// The number of sectors in some segments.
pub open spec fn total_sectors(segments: Seq<BioSegment>) -> int
    decreases segments.len(),
{
    if segments.len() == 0 {
        0
    } else {
        total_sectors(segments.drop_last()) + segments.last()@.sectors()
    }
}

/// Fewer segments have no more sectors.
proof fn lemma_total_sectors(segments: Seq<BioSegment>, k: int)
    requires
        0 <= k <= segments.len(),
        forall|i: int| 0 <= i < segments.len() ==> 0 <= (#[trigger] segments[i])@.len,
    ensures
        0 <= total_sectors(segments.take(k)) <= total_sectors(segments),
    decreases segments.len(),
{
    if k == segments.len() {
        assert(segments.take(k) =~= segments);
        if k > 0 {
            assert(segments.drop_last() =~= segments.take(k - 1));
            assert(0 <= segments[k - 1]@.len);
            lemma_total_sectors(segments.drop_last(), k - 1);
        }
    } else {
        assert(segments.drop_last().take(k) =~= segments.take(k));
        assert(0 <= segments[segments.len() - 1]@.len);
        lemma_total_sectors(segments.drop_last(), k);
    }
}

/// An I/O.
struct BioInner {
    type_: BioType,
    sid_range: Range<Sid>,
    segments: Vec<BioSegment>,
    complete_fn: Option<usize>,
    status: BioStatus,
}

/// What an I/O is.
#[verifier::ext_equal]
pub struct BioView {
    /// What it does.
    pub type_: BioType,
    /// Its first sector on the device.
    pub start: u64,
    /// The sector behind its last one.
    pub end: u64,
    /// Its memory.
    pub segments: Seq<BioSegment>,
    /// The number of what is called at its end.
    pub complete_fn: Option<usize>,
    /// How far it is.
    pub status: BioStatus,
}

impl BioInner {
    spec fn state(&self) -> BioView {
        BioView {
            type_: self.type_,
            start: self.sid_range.start.raw(),
            end: self.sid_range.end.raw(),
            segments: self.segments@,
            complete_fn: self.complete_fn,
            status: self.status,
        }
    }
}

/// All I/Os, those that are done too.
pub struct BioPool {
    bios: Vec<BioInner>,
}

impl View for BioPool {
    type V = Seq<BioView>;

    closed spec fn view(&self) -> Seq<BioView> {
        Seq::new(self.bios@.len(), |i: int| self.bios@[i].state())
    }
}

impl BioPool {
    /// A pool without I/Os.
    pub fn new() -> (pool: Self)
        ensures
            pool@ == Seq::<BioView>::empty(),
    {
        let pool: BioPool = BioPool { bios: Vec::new() };
        assert(pool@ =~= Seq::<BioView>::empty());
        pool
    }

    /// Moves an I/O on from one status to another, if it has the first.
    fn exchange_status(&mut self, id: usize, current: BioStatus, new: BioStatus) -> (result: bool)
        requires
            id < old(self)@.len(),
        ensures
            result == (old(self)@[id as int].status == current),
            result ==> final(self)@ == with_status(old(self)@, id as int, new),
            !result ==> final(self)@ == old(self)@,
    {
        if self.bios[id].status == current {
            self.bios[id].status = new;
            assert(self@ =~= with_status(old(self)@, id as int, new));
            true
        } else {
            false
        }
    }
}

/// The I/Os of which one has another status.
pub open spec fn with_status(bios: Seq<BioView>, id: int, status: BioStatus) -> Seq<BioView> {
    bios.update(id, BioView { status, ..bios[id] })
}

/// A submission that the queue refuses leaves all I/Os as they were.
pub proof fn law_refused_submission(bios: Seq<BioView>, id: int)
    requires
        0 <= id < bios.len(),
        bios[id].status is Init,
    ensures
        with_status(with_status(bios, id, BioStatus::Submit), id, BioStatus::Init) == bios,
{
    assert(with_status(with_status(bios, id, BioStatus::Submit), id, BioStatus::Init) =~= bios);
}

/// An I/O that has ended can neither be submitted nor end again, and the end of one
/// changes nothing of it but its status, and nothing of the others.
pub proof fn law_ends_once(bios: Seq<BioView>, id: int, status: BioStatus, other: int)
    requires
        0 <= id < bios.len(),
        0 <= other < bios.len(),
        status.is_final(),
    ensures
        ({
            let after = with_status(bios, id, status);
            &&& !(after[id].status is Init) && !(after[id].status is Submit)
            &&& after[id].type_ == bios[id].type_ && after[id].segments == bios[id].segments
            &&& after[id].start == bios[id].start && after[id].end == bios[id].end
            &&& other != id ==> after[other] == bios[other]
        }),
{
}

/// An I/O that may be submitted.
#[derive(Debug, PartialEq, Eq)]
pub struct Bio {
    id: usize,
}

/// An I/O that was submitted.
#[derive(Debug, PartialEq, Eq)]
pub struct SubmitBio {
    id: usize,
}

/// I/Os whose end can be waited for.
#[derive(Debug)]
pub struct BioComplete {
    bios: Vec<usize>,
}

impl Bio {
    /// The number of the I/O.
    pub closed spec fn id(&self) -> int {
        self.id as int
    }

    /// Makes an I/O on the sectors from `start_sid` on.
    pub fn new(
        pool: &mut BioPool,
        type_: BioType,
        start_sid: Sid,
        segments: Vec<BioSegment>,
        complete_fn: Option<usize>,
    ) -> (bio: Self)
        requires
            forall|i: int| 0 <= i < segments@.len() ==> (#[trigger] segments@[i]).wf(),
            start_sid.raw() + total_sectors(segments@) <= u64::MAX,
        ensures
            bio.id() == old(pool)@.len(),
            final(pool)@ == old(pool)@.push(
                BioView {
                    type_,
                    start: start_sid.raw(),
                    end: (start_sid.raw() + total_sectors(segments@)) as u64,
                    segments: segments@,
                    complete_fn,
                    status: BioStatus::Init,
                },
            ),
    {
        let mut nsectors: u64 = 0;
        let mut k: usize = 0;
        assert(segments@.take(0) =~= Seq::<BioSegment>::empty());
        while k < segments.len()
            invariant
                k <= segments@.len(),
                forall|i: int| 0 <= i < segments@.len() ==> (#[trigger] segments@[i]).wf(),
                start_sid.raw() + total_sectors(segments@) <= u64::MAX,
                nsectors == total_sectors(segments@.take(k as int)),
            decreases segments@.len() - k,
        {
            assert(segments@.take(k + 1).drop_last() =~= segments@.take(k as int));
            proof {
                assert forall|i: int| 0 <= i < segments@.len() implies 0 <= (
                #[trigger] segments@[i])@.len by {
                    assert(segments@[i].wf());
                }
                lemma_total_sectors(segments@, k + 1);
            }
            nsectors = nsectors + segments[k].nsectors().to_raw();
            k = k + 1;
        }
        assert(segments@.take(k as int) =~= segments@);
        proof {
            Sid::lemma_raw((start_sid.raw() + nsectors) as u64);
        }
        let id: usize = pool.bios.len();
        pool.bios.push(
            BioInner {
                type_,
                sid_range: start_sid..start_sid + nsectors,
                segments,
                complete_fn,
                status: BioStatus::Init,
            },
        );
        assert(pool@ =~= old(pool)@.push(pool@.last()));
        Bio { id }
    }

    /// What the I/O does.
    pub fn type_(&self, pool: &BioPool) -> (type_: BioType)
        requires
            self.id() < pool@.len(),
        ensures
            type_ == pool@[self.id()].type_,
    {
        pool.bios[self.id].type_
    }

    /// The sectors of the I/O.
    pub fn sid_range<'a>(&self, pool: &'a BioPool) -> (range: &'a Range<Sid>)
        requires
            self.id() < pool@.len(),
        ensures
            range.start.raw() == pool@[self.id()].start,
            range.end.raw() == pool@[self.id()].end,
    {
        &pool.bios[self.id].sid_range
    }

    /// The memory of the I/O.
    pub fn segments<'a>(&self, pool: &'a BioPool) -> (segments: &'a Vec<BioSegment>)
        requires
            self.id() < pool@.len(),
        ensures
            segments@ == pool@[self.id()].segments,
    {
        &pool.bios[self.id].segments
    }

    /// How far the I/O is.
    pub fn status(&self, pool: &BioPool) -> (status: BioStatus)
        requires
            self.id() < pool@.len(),
        ensures
            status == pool@[self.id()].status,
    {
        pool.bios[self.id].status
    }

    /// Marks the I/O as submitted, and returns what a queue takes.
    pub fn begin_submit(&self, pool: &mut BioPool) -> (submitted: SubmitBio)
        requires
            self.id() < old(pool)@.len(),
            old(pool)@[self.id()].status is Init,
        ensures
            submitted.id() == self.id(),
            final(pool)@ == with_status(old(pool)@, self.id(), BioStatus::Submit),
    {
        let _ = pool.exchange_status(self.id, BioStatus::Init, BioStatus::Submit);
        SubmitBio { id: self.id }
    }

    /// Ends the submission of the I/O with what the queue said. Where the queue did
    /// not take it, it is not submitted any more.
    pub fn finish_submit(&self, pool: &mut BioPool, enqueued: Result<(), BioEnqueueError>) -> (result:
        Result<BioComplete, BioEnqueueError>)
        requires
            self.id() < old(pool)@.len(),
            old(pool)@[self.id()].status is Submit,
        ensures
            match enqueued {
                Err(e) => result == Err::<BioComplete, BioEnqueueError>(e) && final(pool)@
                    == with_status(old(pool)@, self.id(), BioStatus::Init),
                Ok(_) => result is Ok && result->Ok_0@ == seq![self.id()] && final(pool)@
                    == old(pool)@,
            },
    {
        match enqueued {
            Err(e) => {
                let _ = pool.exchange_status(self.id, BioStatus::Submit, BioStatus::Init);
                Err(e)
            },
            Ok(_) => {
                let mut bios: Vec<usize> = Vec::new();
                bios.push(self.id);
                let complete: BioComplete = BioComplete { bios };
                assert(complete@ =~= seq![self.id()]);
                Ok(complete)
            },
        }
    }

    /// Submits the I/O to a queue: the queue is handed the I/O once, as a submitted one,
    /// and where it refuses it, its own error is returned.
    pub fn submit<Q: BioRequestQueue>(&self, pool: &mut BioPool, queue: &mut Q) -> (result: Result<
        BioComplete,
        BioEnqueueError,
    >)
        requires
            self.id() < old(pool)@.len(),
            old(pool)@[self.id()].status is Init,
        ensures
            final(queue).takes(
                old(queue).handed(),
                Handed {
                    id: self.id(),
                    bio: BioView { status: BioStatus::Submit, ..old(pool)@[self.id()] },
                    answer: match result {
                        Err(e) => Err(e),
                        Ok(_) => Ok(()),
                    },
                },
            ),
            match result {
                Err(_) => final(pool)@ == old(pool)@,
                Ok(complete) => complete@ == seq![self.id()] && final(pool)@ == with_status(
                    old(pool)@,
                    self.id(),
                    BioStatus::Submit,
                ),
            },
    {
        let submitted: SubmitBio = self.begin_submit(pool);
        let enqueued: Result<(), BioEnqueueError> = queue.enqueue(pool, submitted);
        let result: Result<BioComplete, BioEnqueueError> = self.finish_submit(pool, enqueued);
        proof {
            match enqueued {
                Err(e) => {},
                Ok(u) => {
                    assert(u == ());
                },
            }
        }
        assert(with_status(
            with_status(old(pool)@, self.id(), BioStatus::Submit),
            self.id(),
            BioStatus::Init,
        ) =~= old(pool)@);
        result
    }
}

impl View for BioComplete {
    type V = Seq<int>;

    closed spec fn view(&self) -> Seq<int> {
        Seq::new(self.bios@.len(), |i: int| self.bios@[i] as int)
    }
}

impl Default for BioComplete {
    fn default() -> (complete: Self)
        ensures
            complete@ == Seq::<int>::empty(),
    {
        BioComplete::new()
    }
}

impl BioComplete {
    /// No I/Os.
    pub fn new() -> (complete: Self)
        ensures
            complete@ == Seq::<int>::empty(),
    {
        let complete: BioComplete = BioComplete { bios: Vec::new() };
        assert(complete@ =~= Seq::<int>::empty());
        complete
    }

    /// Takes the I/Os of another one over, behind those that are there.
    pub fn concat(&mut self, other: Self)
        ensures
            final(self)@ == old(self)@ + other@,
    {
        let ghost more = other@;
        let mut other: BioComplete = other;
        self.bios.append(&mut other.bios);
        assert(self@ =~= old(self)@ + more);
    }

    /// The statuses with which the I/Os ended, in their order, once all of them have
    /// left the status of a submitted one.
    pub fn wait(&self, pool: &BioPool) -> (result: Option<Vec<BioStatus>>)
        requires
            forall|k: int| 0 <= k < self@.len() ==> 0 <= #[trigger] self@[k] < pool@.len(),
        ensures
            match result {
                None => exists|k: int|
                    0 <= k < self@.len() && (#[trigger] pool@[self@[k]]).status is Submit,
                Some(statuses) => {
                    &&& statuses@.len() == self@.len()
                    &&& forall|k: int|
                        0 <= k < self@.len() ==> #[trigger] statuses@[k] == pool@[self@[k]].status
                            && !(statuses@[k] is Submit)
                },
            },
    {
        let mut statuses: Vec<BioStatus> = Vec::new();
        let mut k: usize = 0;
        while k < self.bios.len()
            invariant
                k <= self.bios@.len(),
                statuses@.len() == k,
                forall|j: int| 0 <= j < self@.len() ==> 0 <= #[trigger] self@[j] < pool@.len(),
                forall|j: int|
                    0 <= j < k ==> #[trigger] statuses@[j] == pool@[self@[j]].status && !(
                    statuses@[j] is Submit),
            decreases self.bios@.len() - k,
        {
            assert(0 <= self@[k as int] < pool@.len());
            let status: BioStatus = pool.bios[self.bios[k]].status;
            assert(status == pool@[self@[k as int]].status);
            if matches!(status, BioStatus::Submit) {
                return None;
            }
            statuses.push(status);
            k = k + 1;
        }
        Some(statuses)
    }
}

impl SubmitBio {
    /// The number of the I/O.
    pub closed spec fn id(&self) -> int {
        self.id as int
    }

    /// What the I/O does.
    pub fn type_(&self, pool: &BioPool) -> (type_: BioType)
        requires
            self.id() < pool@.len(),
        ensures
            type_ == pool@[self.id()].type_,
    {
        pool.bios[self.id].type_
    }

    /// The sectors of the I/O.
    pub fn sid_range<'a>(&self, pool: &'a BioPool) -> (range: &'a Range<Sid>)
        requires
            self.id() < pool@.len(),
        ensures
            range.start.raw() == pool@[self.id()].start,
            range.end.raw() == pool@[self.id()].end,
    {
        &pool.bios[self.id].sid_range
    }

    /// The memory of the I/O.
    pub fn segments<'a>(&self, pool: &'a BioPool) -> (segments: &'a Vec<BioSegment>)
        requires
            self.id() < pool@.len(),
        ensures
            segments@ == pool@[self.id()].segments,
    {
        &pool.bios[self.id].segments
    }

    /// How far the I/O is.
    pub fn status(&self, pool: &BioPool) -> (status: BioStatus)
        requires
            self.id() < pool@.len(),
        ensures
            status == pool@[self.id()].status,
    {
        pool.bios[self.id].status
    }

    /// Ends the I/O, and returns the number of what is to be called now.
    pub fn complete(&self, pool: &mut BioPool, status: BioStatus) -> (complete_fn: Option<usize>)
        requires
            self.id() < old(pool)@.len(),
            old(pool)@[self.id()].status is Submit,
            status.is_final(),
        ensures
            final(pool)@ == with_status(old(pool)@, self.id(), status),
            complete_fn == old(pool)@[self.id()].complete_fn,
    {
        let complete_fn: Option<usize> = pool.bios[self.id].complete_fn;
        let _ = pool.exchange_status(self.id, BioStatus::Submit, status);
        complete_fn
    }
}

/// What is to be reported of an I/O that ended: what it was to do and how it ended,
/// unless it is done.
pub fn general_complete_fn(pool: &BioPool, bio: &SubmitBio) -> (report: Option<(BioType, BioStatus)>)
    requires
        bio.id() < pool@.len(),
    ensures
        report == (if pool@[bio.id()].status is Complete {
            None
        } else {
            Some((pool@[bio.id()].type_, pool@[bio.id()].status))
        }),
{
    match bio.status(pool) {
        BioStatus::Complete => None,
        status => Some((bio.type_(pool), status)),
    }
}

/// The numbers of what I/Os do, and of how far they are.
pub proof fn law_numbers()
    ensures
        BioType::Read.raw() == 0,
        BioType::Write.raw() == 1,
        BioType::Flush.raw() == 2,
        BioType::Discard.raw() == 3,
        BioStatus::Init.raw() == 0,
        BioStatus::Submit.raw() == 1,
        BioStatus::Complete.raw() == 2,
        BioStatus::NotSupported.raw() == 3,
        BioStatus::NoSpace.raw() == 4,
        BioStatus::IoError.raw() == 5,
{
}

/// An I/O has ended where it is done or failed in some way, and not before.
pub proof fn law_final_statuses(status: BioStatus)
    ensures
        status.is_final() <==> status is Complete || status is NotSupported || status is NoSpace
            || status is IoError,
{
}

/// One more segment adds its bytes to the sectors of an I/O, 512 bytes to each.
pub proof fn law_sectors_add_up(segments: Seq<BioSegment>, more: BioSegment)
    ensures
        total_sectors(Seq::<BioSegment>::empty()) == 0,
        total_sectors(segments.push(more)) == total_sectors(segments) + more@.len / 512,
{
    assert(segments.push(more).drop_last() =~= segments);
}

/// What a segment holds are the bytes of its pages from its offset on, as many as it has, and it
/// has whole sectors of 512 bytes.
pub proof fn law_segment_bytes(segment: SegmentView, k: int)
    requires
        segment.wf(),
        0 <= k < segment.len,
    ensures
        segment.bytes().len() == segment.len,
        segment.bytes()[k] == segment.pages[segment.offset + k],
        segment.len == 512 * segment.sectors(),
        segment.offset % 512 == 0,
{
}

} // verus!
