//! Queues of block I/O requests.

use core::ops::Range;
use std::collections::VecDeque;
use vstd::prelude::*;
use crate::block::bio::{BioEnqueueError, BioPool, BioType, BioView, SubmitBio};
use crate::block::id::Sid;

verus! {

/// An I/O that a queue was handed, and what the queue answered.
#[verifier::ext_equal]
pub struct Handed {
    /// The number of the I/O.
    pub id: int,
    /// The I/O as it was then.
    pub bio: BioView,
    /// What the queue answered: whether it took the I/O.
    pub answer: Result<(), BioEnqueueError>,
}

/// A queue of requests.
pub trait BioRequestQueue {
    /// The I/Os that the queue was handed so far, in their order, with its answers, if it
    /// keeps count of them.
    open spec fn handed(&self) -> Seq<Handed> {
        Seq::empty()
    }

    /// Whether the queue can be as it is after a queue that had been handed `before` was
    /// handed one more I/O and answered. A queue that keeps count says here that what it
    /// was handed is `before` and then `last`; one that promises nothing can be anything.
    open spec fn takes(&self, before: Seq<Handed>, last: Handed) -> bool {
        true
    }

    /// Takes an I/O into the queue: it is merged into a request that is there, or
    /// becomes a request of its own.
    fn enqueue(&mut self, pool: &BioPool, bio: SubmitBio) -> (answer: Result<
        (),
        BioEnqueueError,
    >)
        requires
            0 <= bio.id() < pool@.len(),
            pool@[bio.id()].status is Submit,
        ensures
            final(self).takes(
                old(self).handed(),
                Handed { id: bio.id(), bio: pool@[bio.id()], answer },
            ),
    ;

    /// Takes a request out of the queue, if there is one.
    fn dequeue(&mut self) -> Option<BioRequest>;
}

/// Some I/Os of the same type on sectors that follow each other.
#[derive(Debug)]
pub struct BioRequest {
    type_: BioType,
    sid_range: Range<Sid>,
    bios: VecDeque<SubmitBio>,
}

/// What a request is.
#[verifier::ext_equal]
pub struct RequestView {
    /// What its I/Os do.
    pub type_: BioType,
    /// Its first sector on the device.
    pub start: u64,
    /// The sector behind its last one.
    pub end: u64,
    /// The numbers of its I/Os.
    pub bios: Seq<int>,
}

impl View for BioRequest {
    type V = RequestView;

    closed spec fn view(&self) -> RequestView {
        RequestView {
            type_: self.type_,
            start: self.sid_range.start.raw(),
            end: self.sid_range.end.raw(),
            bios: Seq::new(self.bios@.len(), |i: int| self.bios@[i].id()),
        }
    }
}

impl RequestView {
    /// The I/Os have the type of the request, and their sectors follow each other and
    /// are those of the request.
    pub open spec fn holds(self, pool: Seq<BioView>) -> bool {
        &&& 0 < self.bios.len()
        &&& forall|k: int| 0 <= k < self.bios.len() ==> 0 <= #[trigger] self.bios[k] < pool.len()
        &&& forall|k: int|
            0 <= k < self.bios.len() ==> pool[#[trigger] self.bios[k]].type_ == self.type_
        &&& pool[self.bios[0]].start == self.start
        &&& pool[self.bios.last()].end == self.end
        &&& forall|k: int, l: int|
            0 <= k && l == k + 1 && l < self.bios.len() ==> pool[#[trigger] self.bios[k]].end
                == pool[#[trigger] self.bios[l]].start
    }

    /// Whether an I/O can be merged into the request.
    pub open spec fn mergeable(self, bio: BioView) -> bool {
        bio.type_ == self.type_ && (bio.start == self.end || bio.end == self.start)
    }

    /// The request into which an I/O was merged.
    pub open spec fn merged(self, id: int, bio: BioView) -> RequestView {
        if bio.start == self.end {
            RequestView { end: bio.end, bios: self.bios.push(id), ..self }
        } else {
            RequestView { start: bio.start, bios: seq![id] + self.bios, ..self }
        }
    }
}

/// A request into which an I/O is merged still holds I/Os of one type on sectors that
/// follow each other.
pub proof fn law_merged_request_holds(request: RequestView, pool: Seq<BioView>, id: int)
    requires
        request.holds(pool),
        0 <= id < pool.len(),
        request.mergeable(pool[id]),
    ensures
        request.merged(id, pool[id]).holds(pool),
{
    let m = request.merged(id, pool[id]);
    if pool[id].start == request.end {
        assert forall|k: int, l: int| 0 <= k && l == k + 1 && l < m.bios.len() implies pool[
        #[trigger] m.bios[k]].end == pool[#[trigger] m.bios[l]].start by {
            if l == request.bios.len() {
                assert(m.bios[k] == request.bios.last());
            } else {
                assert(m.bios[k] == request.bios[k] && m.bios[l] == request.bios[l]);
            }
        }
    } else {
        assert(m.bios.last() == request.bios.last());
        assert forall|k: int, l: int| 0 <= k && l == k + 1 && l < m.bios.len() implies pool[
        #[trigger] m.bios[k]].end == pool[#[trigger] m.bios[l]].start by {
            if k == 0 {
                assert(m.bios[l] == request.bios[0]);
            } else {
                assert(m.bios[k] == request.bios[k - 1] && m.bios[l] == request.bios[l - 1]);
            }
        }
        assert forall|k: int| 0 <= k < m.bios.len() implies 0 <= #[trigger] m.bios[k]
            < pool.len() && pool[m.bios[k]].type_ == m.type_ by {
            if k > 0 {
                assert(m.bios[k] == request.bios[k - 1]);
            }
        }
    }
}

impl BioRequest {
    /// The request of one I/O.
    pub fn from_bio(pool: &BioPool, bio: SubmitBio) -> (request: BioRequest)
        requires
            0 <= bio.id() < pool@.len(),
        ensures
            request@ == (RequestView {
                type_: pool@[bio.id()].type_,
                start: pool@[bio.id()].start,
                end: pool@[bio.id()].end,
                bios: seq![bio.id()],
            }),
            request@.holds(pool@),
    {
        let type_: BioType = bio.type_(pool);
        let sid_range: Range<Sid> = Range {
            start: bio.sid_range(pool).start,
            end: bio.sid_range(pool).end,
        };
        let mut bios: VecDeque<SubmitBio> = VecDeque::with_capacity(1);
        let ghost id = bio.id();
        bios.push_front(bio);
        let request: BioRequest = BioRequest { type_, sid_range, bios };
        assert(request@.bios =~= seq![id]);
        request
    }

    /// What the I/Os of the request do.
    pub fn type_(&self) -> (type_: BioType)
        ensures
            type_ == self@.type_,
    {
        self.type_
    }

    /// The sectors of the request.
    pub fn sid_range(&self) -> (range: &Range<Sid>)
        ensures
            range.start.raw() == self@.start,
            range.end.raw() == self@.end,
    {
        &self.sid_range
    }

    /// The I/Os of the request.
    pub fn bios(&self) -> (bios: &VecDeque<SubmitBio>)
        ensures
            bios@.len() == self@.bios.len(),
            forall|k: int| 0 <= k < bios@.len() ==> (#[trigger] bios@[k]).id() == self@.bios[k],
    {
        &self.bios
    }

    /// Whether an I/O can be merged into the request: it has the same type, and its
    /// sectors are next to those of the request.
    pub fn can_merge(&self, pool: &BioPool, rq_bio: &SubmitBio) -> (result: bool)
        requires
            0 <= rq_bio.id() < pool@.len(),
        ensures
            result == self@.mergeable(pool@[rq_bio.id()]),
    {
        if rq_bio.type_(pool) != self.type_ {
            return false;
        }
        rq_bio.sid_range(pool).start.to_raw() == self.sid_range.end.to_raw() || rq_bio.sid_range(
            pool,
        ).end.to_raw() == self.sid_range.start.to_raw()
    }

    /// Merges an I/O into the request, at its back or at its front.
    pub fn merge_bio(&mut self, pool: &BioPool, rq_bio: SubmitBio)
        requires
            0 <= rq_bio.id() < pool@.len(),
            old(self)@.mergeable(pool@[rq_bio.id()]),
        ensures
            final(self)@ == old(self)@.merged(rq_bio.id(), pool@[rq_bio.id()]),
            old(self)@.holds(pool@) ==> final(self)@.holds(pool@),
    {
        let ghost id = rq_bio.id();
        let start: Sid = rq_bio.sid_range(pool).start;
        let end: Sid = rq_bio.sid_range(pool).end;
        if start.to_raw() == self.sid_range.end.to_raw() {
            self.sid_range.end = end;
            self.bios.push_back(rq_bio);
            assert(self@.bios =~= old(self)@.bios.push(id));
        } else {
            self.sid_range.start = start;
            self.bios.push_front(rq_bio);
            assert(self@.bios =~= seq![id] + old(self)@.bios);
        }
        proof {
            if old(self)@.holds(pool@) {
                law_merged_request_holds(old(self)@, pool@, id);
            }
        }
    }
}

/// An I/O can be merged into a request exactly where it does the same and its sectors lie right
/// behind those of the request or right before them. It then stands behind the other I/Os or
/// before them, as its sectors do, and the request reaches as far as its sectors.
pub proof fn law_merging(request: RequestView, id: int, bio: BioView)
    ensures
        request.mergeable(bio) <==> bio.type_ == request.type_ && (bio.start == request.end
            || bio.end == request.start),
        ({
            let m = request.merged(id, bio);
            &&& m.type_ == request.type_
            &&& bio.start == request.end ==> m.start == request.start && m.end == bio.end && m.bios
                == request.bios.push(id)
            &&& bio.start != request.end ==> m.start == bio.start && m.end == request.end && m.bios
                == seq![id] + request.bios
        }),
{
}

} // verus!
