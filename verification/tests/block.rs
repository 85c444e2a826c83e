//! Block I/O.

use std::collections::VecDeque;

use exfat_core::block::bio::{
    general_complete_fn, Bio, BioComplete, BioEnqueueError, BioPool, BioSegment, BioStatus, BioType,
    DeviceError, SubmitBio,
};
use exfat_core::block::device::Component;
use exfat_core::block::id::{Bid, Sid, BLOCK_SIZE, SECTOR_SIZE};
use exfat_core::block::request_queue::{BioRequest, BioRequestQueue};

/// A queue that takes so many I/Os and merges what it can.
struct Queue {
    room: usize,
    requests: VecDeque<BioRequest>,
}

impl BioRequestQueue for Queue {
    fn enqueue(&mut self, pool: &BioPool, bio: SubmitBio) -> Result<(), BioEnqueueError> {
        if self.room == 0 {
            return Err(BioEnqueueError::IsFull);
        }
        if bio.type_(pool) == BioType::Discard {
            return Err(BioEnqueueError::Refused);
        }
        self.room -= 1;
        for request in self.requests.iter_mut() {
            if request.can_merge(pool, &bio) {
                request.merge_bio(pool, bio);
                return Ok(());
            }
        }
        self.requests.push_back(BioRequest::from_bio(pool, bio));
        Ok(())
    }

    fn dequeue(&mut self) -> Option<BioRequest> {
        self.requests.pop_front()
    }
}

fn queue(room: usize) -> Queue {
    Queue { room, requests: VecDeque::new() }
}

fn segment(nsectors: usize) -> BioSegment {
    BioSegment::from_segment(vec![0u8; 4 * BLOCK_SIZE], 0, nsectors * SECTOR_SIZE)
}

fn bio(pool: &mut BioPool, type_: BioType, start: u64, nsectors: usize) -> Bio {
    Bio::new(pool, type_, Sid::new(start), vec![segment(nsectors)], None)
}

#[test]
fn block_numbers_and_offsets() {
    assert_eq!(Bid::new(7).to_raw(), 7);
    assert_eq!(Bid::from_offset(8191).to_raw(), 1);
    assert_eq!(Bid::from_offset(8192).to_raw(), 2);
    assert_eq!(Sid::from_offset(8191).to_raw(), 15);
    assert_eq!(Bid::new(3).to_offset(), 12288);
    assert_eq!(Sid::new(3).to_offset(), 1536);
    for raw in [0u64, 1, 17, 4096] {
        assert_eq!(Sid::from_offset(Sid::new(raw).to_offset()), Sid::new(raw));
        assert_eq!(Bid::from_offset(Bid::new(raw).to_offset()), Bid::new(raw));
    }
}

#[test]
fn blocks_and_their_sectors() {
    let bid = Bid::new(5);
    let sid = Sid::from(bid);
    assert_eq!(sid.to_raw(), 40);
    assert_eq!(sid.to_offset(), bid.to_offset());
}

#[test]
fn block_number_arithmetic() {
    assert_eq!(Sid::new(3) + 4, Sid::new(7));
    assert_eq!(Sid::new(7) - 4, Sid::new(3));
    assert!(Sid::new(3) < Sid::new(7));
    assert_eq!(Sid::steps_between(&Sid::new(3), &Sid::new(7)), Some(4));
    assert_eq!(Sid::steps_between(&Sid::new(7), &Sid::new(3)), None);
    assert_eq!(Sid::forward_checked(Sid::new(3), 4), Some(Sid::new(7)));
    assert_eq!(Sid::forward_checked(Sid::new(u64::MAX), 1), None);
    assert_eq!(Sid::backward_checked(Sid::new(7), 4), Some(Sid::new(3)));
    assert_eq!(Sid::backward_checked(Sid::new(3), 4), None);
}

#[test]
fn types_and_statuses_have_numbers() {
    for (raw, type_) in
        [BioType::Read, BioType::Write, BioType::Flush, BioType::Discard].into_iter().enumerate()
    {
        assert_eq!(type_.to_raw() as usize, raw);
        assert_eq!(BioType::from_raw(raw as u8), Some(type_));
    }
    assert_eq!(BioType::from_raw(4), None);
    let statuses = [
        BioStatus::Init,
        BioStatus::Submit,
        BioStatus::Complete,
        BioStatus::NotSupported,
        BioStatus::NoSpace,
        BioStatus::IoError,
    ];
    for (raw, status) in statuses.into_iter().enumerate() {
        assert_eq!(status.to_raw() as usize, raw);
        assert_eq!(BioStatus::from_raw(raw as u32), Some(status));
    }
    assert_eq!(BioStatus::from_raw(6), None);
}

#[test]
fn enqueue_errors_outside_the_block_layer() {
    assert_eq!(DeviceError::from(BioEnqueueError::IsFull), DeviceError::NotEnoughResources);
    assert_eq!(DeviceError::from(BioEnqueueError::Refused), DeviceError::NotEnoughResources);
}

#[test]
fn segments_read_and_write_their_bytes() {
    let frame: Vec<u8> = (0..BLOCK_SIZE).map(|i| (i / 512) as u8).collect();
    let mut segment = BioSegment::from_frame(frame, 1024, 1024);
    assert_eq!(segment.nsectors(), Sid::new(2));
    assert_eq!(segment.nbytes(), 1024);
    let bytes = segment.reader();
    assert_eq!(bytes.len(), 1024);
    assert_eq!((bytes[0], bytes[511], bytes[512], bytes[1023]), (2, 2, 3, 3));

    assert_eq!(segment.writer(&vec![9; 3]), 3);
    let bytes = segment.reader();
    assert_eq!((bytes[2], bytes[3]), (9, 2));

    let copy = segment.clone();
    assert_eq!(segment.writer(&vec![8; 5000]), 1024);
    assert_eq!(segment.reader(), vec![8; 1024]);
    assert_eq!(copy.reader(), bytes);
}

#[test]
fn a_bio_covers_the_sectors_of_its_segments() {
    let mut pool = BioPool::new();
    let bio = Bio::new(
        &mut pool,
        BioType::Write,
        Sid::new(100),
        vec![segment(3), segment(5)],
        Some(42),
    );
    assert_eq!(bio.type_(&pool), BioType::Write);
    assert_eq!(bio.sid_range(&pool).start, Sid::new(100));
    assert_eq!(bio.sid_range(&pool).end, Sid::new(108));
    assert_eq!(bio.segments(&pool).len(), 2);
    assert_eq!(bio.status(&pool), BioStatus::Init);
}

#[test]
fn a_bio_is_submitted_completed_and_waited_for() {
    let mut pool = BioPool::new();
    let mut queue = queue(10);
    let read = Bio::new(&mut pool, BioType::Read, Sid::new(0), vec![segment(1)], Some(7));
    let complete = read.submit(&mut pool, &mut queue).unwrap();
    assert_eq!(read.status(&pool), BioStatus::Submit);
    assert_eq!(complete.wait(&pool), None);

    let request = queue.dequeue().unwrap();
    assert!(queue.dequeue().is_none());
    let submitted = &request.bios()[0];
    assert_eq!(submitted.type_(&pool), BioType::Read);
    assert_eq!(submitted.sid_range(&pool).end, Sid::new(1));
    assert_eq!(submitted.segments(&pool).len(), 1);
    assert_eq!(submitted.status(&pool), BioStatus::Submit);
    assert_eq!(submitted.complete(&mut pool, BioStatus::Complete), Some(7));
    assert_eq!(read.status(&pool), BioStatus::Complete);
    assert_eq!(complete.wait(&pool), Some(vec![BioStatus::Complete]));
    assert_eq!(general_complete_fn(&pool, submitted), None);
}

#[test]
fn a_refused_bio_is_not_submitted() {
    let mut pool = BioPool::new();
    let mut full = queue(0);
    let write = bio(&mut pool, BioType::Write, 0, 1);
    assert_eq!(write.submit(&mut pool, &mut full).err(), Some(BioEnqueueError::IsFull));
    assert_eq!(write.status(&pool), BioStatus::Init);

    let mut queue = queue(10);
    let discard = bio(&mut pool, BioType::Discard, 0, 1);
    assert_eq!(discard.submit(&mut pool, &mut queue).err(), Some(BioEnqueueError::Refused));
    assert_eq!(discard.status(&pool), BioStatus::Init);
    assert!(write.submit(&mut pool, &mut queue).is_ok());
    assert_eq!(write.status(&pool), BioStatus::Submit);
    assert_eq!(discard.status(&pool), BioStatus::Init);
}

#[test]
fn completions_are_waited_for_in_their_order() {
    let mut pool = BioPool::new();
    let mut queue = queue(10);
    let first = bio(&mut pool, BioType::Read, 0, 1);
    let second = bio(&mut pool, BioType::Flush, 50, 1);
    let mut complete = BioComplete::new();
    assert_eq!(complete.wait(&pool), Some(Vec::new()));
    assert_eq!(BioComplete::default().wait(&pool), Some(Vec::new()));
    complete.concat(first.submit(&mut pool, &mut queue).unwrap());
    complete.concat(second.submit(&mut pool, &mut queue).unwrap());

    let a = queue.dequeue().unwrap();
    let b = queue.dequeue().unwrap();
    assert_eq!(b.bios()[0].complete(&mut pool, BioStatus::NotSupported), None);
    assert_eq!(complete.wait(&pool), None);
    assert_eq!(a.bios()[0].complete(&mut pool, BioStatus::IoError), None);
    assert_eq!(
        complete.wait(&pool),
        Some(vec![BioStatus::IoError, BioStatus::NotSupported])
    );
    assert_eq!(
        general_complete_fn(&pool, &a.bios()[0]),
        Some((BioType::Read, BioStatus::IoError))
    );
}

#[test]
fn neighbouring_bios_are_merged() {
    let mut pool = BioPool::new();
    let mut queue = queue(10);
    let middle = bio(&mut pool, BioType::Read, 10, 2);
    let behind = bio(&mut pool, BioType::Read, 12, 3);
    let before = bio(&mut pool, BioType::Read, 6, 4);
    let apart = bio(&mut pool, BioType::Read, 16, 1);
    let other = bio(&mut pool, BioType::Write, 15, 1);
    for one in [&middle, &behind, &before, &apart, &other] {
        one.submit(&mut pool, &mut queue).unwrap();
    }
    let merged = queue.dequeue().unwrap();
    assert_eq!(merged.type_(), BioType::Read);
    assert_eq!(merged.sid_range().start, Sid::new(6));
    assert_eq!(merged.sid_range().end, Sid::new(15));
    let starts: Vec<u64> =
        merged.bios().iter().map(|bio| bio.sid_range(&pool).start.to_raw()).collect();
    assert_eq!(starts, vec![6, 10, 12]);
    assert_eq!(queue.dequeue().unwrap().sid_range().start, Sid::new(16));
    assert_eq!(queue.dequeue().unwrap().type_(), BioType::Write);
    assert!(queue.dequeue().is_none());
}

#[test]
fn devices_are_found_by_their_names() {
    let mut component: Component<u32> = Component::init();
    assert_eq!(component.get_device("vda"), None);
    component.register_device("vdb".to_string(), 2);
    component.register_device("vda".to_string(), 1);
    component.register_device("exfat".to_string(), 3);
    assert_eq!(component.get_device("vda"), Some(1));
    assert_eq!(component.get_device("vdb"), Some(2));
    assert_eq!(component.get_device("vdc"), None);
    component.register_device("vda".to_string(), 4);
    assert_eq!(
        component.all_devices(),
        vec![("exfat".to_string(), 3), ("vda".to_string(), 4), ("vdb".to_string(), 2)]
    );
}

/// A queue that notes what it is handed, and answers as it is told.
struct Noting {
    answer: Result<(), BioEnqueueError>,
    handed: Vec<(BioType, u64, u64, usize, BioStatus)>,
}

impl BioRequestQueue for Noting {
    fn enqueue(&mut self, pool: &BioPool, bio: SubmitBio) -> Result<(), BioEnqueueError> {
        let range = bio.sid_range(pool);
        self.handed.push((
            bio.type_(pool),
            range.start.to_raw(),
            range.end.to_raw(),
            bio.segments(pool).len(),
            bio.status(pool),
        ));
        self.answer
    }

    fn dequeue(&mut self) -> Option<BioRequest> {
        None
    }
}

#[test]
fn a_queue_is_handed_what_is_submitted() {
    let answers =
        [Ok(()), Err(BioEnqueueError::IsFull), Err(BioEnqueueError::Refused)];
    for answer in answers {
        let mut pool = BioPool::new();
        let mut queue = Noting { answer, handed: Vec::new() };
        let io = bio(&mut pool, BioType::Write, 8, 3);
        let result = io.submit(&mut pool, &mut queue);
        assert_eq!(queue.handed, vec![(BioType::Write, 8, 11, 1, BioStatus::Submit)]);
        match answer {
            Ok(_) => {
                assert!(result.is_ok());
                assert_eq!(io.status(&pool), BioStatus::Submit);
            }
            Err(e) => {
                assert_eq!(result.err(), Some(e));
                assert_eq!(io.status(&pool), BioStatus::Init);
            }
        }
    }
}
