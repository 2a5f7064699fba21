use std::cell::{Cell, RefCell};
use std::rc::Rc;

use virtio_balloon::ledger::Direction;
use virtio_balloon::pfn::Buffer;
use virtio_balloon::simple_handler::{Error, HostAdvisor, SignalUsedQueue, SimpleHandler};
use virtio_queue::desc::split::Descriptor as SplitDescriptor;
use virtio_queue::desc::RawDescriptor;
use virtio_queue::mock::MockSplitQueue;
use virtio_queue::{Queue, QueueT};
use vm_memory::{Bytes, GuestAddress, GuestMemoryBackend, GuestMemoryMmap};

const MEM_SIZE: usize = 0x20_0000;
const DEFLATE_RINGS: u64 = 0x4000;
const NEXT_FLAG: u16 = 1;

type Calls = Rc<RefCell<Vec<(usize, usize, Direction)>>>;

struct Recorder {
    calls: Calls,
    refuse: Option<usize>,
}

impl HostAdvisor for Recorder {
    fn advise(&mut self, host_addr: usize, len: usize, direction: Direction) -> bool {
        self.calls.borrow_mut().push((host_addr, len, direction));
        self.refuse != Some(host_addr)
    }
}

struct Signals {
    seen: Rc<RefCell<Vec<u16>>>,
}

impl SignalUsedQueue for Signals {
    fn signal_used_queue(&self, index: u16) {
        self.seen.borrow_mut().push(index);
    }
}

fn memory() -> GuestMemoryMmap<()> {
    GuestMemoryMmap::<()>::from_ranges(&[(GuestAddress(0), MEM_SIZE)]).unwrap()
}

fn host(mem: &GuestMemoryMmap<()>, guest: u64) -> usize {
    mem.get_host_address(GuestAddress(guest)).unwrap() as usize
}

fn write_pfns(mem: &GuestMemoryMmap<()>, at: u64, pfns: &[u32]) {
    for (i, pfn) in pfns.iter().enumerate() {
        mem.write_slice(&pfn.to_le_bytes(), GuestAddress(at + 4 * i as u64)).unwrap();
    }
}

fn desc(addr: u64, len: u32, flags: u16, next: u16) -> RawDescriptor {
    RawDescriptor::from(SplitDescriptor::new(addr, len, flags, next))
}

fn handler(
    mem: &GuestMemoryMmap<()>,
    inflate: Queue,
    deflate: Queue,
) -> (SimpleHandler<Signals, Recorder>, Calls, Rc<RefCell<Vec<u16>>>) {
    let calls: Calls = Rc::new(RefCell::new(Vec::new()));
    let seen = Rc::new(RefCell::new(Vec::new()));
    let handler = SimpleHandler::new(
        Signals { seen: seen.clone() },
        Recorder { calls: calls.clone(), refuse: None },
        inflate,
        deflate,
        mem.clone(),
    );
    (handler, calls, seen)
}

#[test]
fn inflate_of_two_pages_posts_one_used_entry() {
    let mem = memory();
    let inflate_vq = MockSplitQueue::new(&mem, 16);
    let deflate_vq = MockSplitQueue::create(&mem, GuestAddress(DEFLATE_RINGS), 16);
    write_pfns(&mem, 0x10_0000, &[0x10, 0x11]);
    inflate_vq.add_desc_chains(&[desc(0x10_0000, 8, 0, 0)], 0).unwrap();
    let (mut handler, calls, seen) =
        handler(&mem, inflate_vq.create_queue().unwrap(), deflate_vq.create_queue().unwrap());

    handler.process_inflate().unwrap();

    assert_eq!(
        *calls.borrow(),
        vec![
            (host(&mem, 0x10000), 4096, Direction::Inflate),
            (host(&mem, 0x11000), 4096, Direction::Inflate),
        ]
    );
    assert_eq!(handler.inflate_page_num(), 2);
    assert_eq!(inflate_vq.used().idx().load(), 1);
    let entry = inflate_vq.used().ring().ref_at(0).unwrap().load();
    assert_eq!(entry.id(), 0);
    assert_eq!(entry.len(), 0);
    assert_eq!(*seen.borrow(), vec![0]);
    assert_eq!(deflate_vq.used().idx().load(), 0);
}

#[test]
fn deflate_restores_pages_and_signals_its_queue() {
    let mem = memory();
    let inflate_vq = MockSplitQueue::new(&mem, 16);
    let deflate_vq = MockSplitQueue::create(&mem, GuestAddress(DEFLATE_RINGS), 16);
    write_pfns(&mem, 0x10_0000, &[0x10, 0x11, 0x12]);
    write_pfns(&mem, 0x10_1000, &[0x11]);
    inflate_vq.add_desc_chains(&[desc(0x10_0000, 12, 0, 0)], 0).unwrap();
    deflate_vq.add_desc_chains(&[desc(0x10_1000, 4, 0, 0)], 0).unwrap();
    let (mut handler, calls, seen) =
        handler(&mem, inflate_vq.create_queue().unwrap(), deflate_vq.create_queue().unwrap());

    handler.process_inflate().unwrap();
    assert_eq!(handler.inflate_page_num(), 3);
    handler.process_deflate().unwrap();

    assert_eq!(handler.inflate_page_num(), 2);
    assert_eq!(calls.borrow()[3], (host(&mem, 0x11000), 4096, Direction::Deflate));
    assert_eq!(deflate_vq.used().idx().load(), 1);
    assert_eq!(*seen.borrow(), vec![0, 1]);
}

#[test]
fn draining_an_empty_queue_changes_nothing() {
    let mem = memory();
    let inflate_vq = MockSplitQueue::new(&mem, 16);
    let deflate_vq = MockSplitQueue::create(&mem, GuestAddress(DEFLATE_RINGS), 16);
    let (mut handler, calls, seen) =
        handler(&mem, inflate_vq.create_queue().unwrap(), deflate_vq.create_queue().unwrap());

    handler.process_inflate().unwrap();
    handler.process_inflate().unwrap();
    handler.process_deflate().unwrap();

    assert!(calls.borrow().is_empty());
    assert!(seen.borrow().is_empty());
    assert_eq!(handler.inflate_page_num(), 0);
    assert_eq!(inflate_vq.used().idx().load(), 0);
    assert_eq!(deflate_vq.used().idx().load(), 0);
}

#[test]
fn every_chain_is_handed_back_once_in_order() {
    let mem = memory();
    let inflate_vq = MockSplitQueue::new(&mem, 16);
    let deflate_vq = MockSplitQueue::create(&mem, GuestAddress(DEFLATE_RINGS), 16);
    write_pfns(&mem, 0x10_0000, &[1, 2]);
    write_pfns(&mem, 0x10_1000, &[3]);
    write_pfns(&mem, 0x10_2000, &[4, 5, 6]);
    inflate_vq
        .add_desc_chains(
            &[desc(0x10_0000, 8, 0, 0), desc(0x10_1000, 4, 0, 0), desc(0x10_2000, 12, 0, 0)],
            0,
        )
        .unwrap();
    let (mut handler, calls, _seen) =
        handler(&mem, inflate_vq.create_queue().unwrap(), deflate_vq.create_queue().unwrap());

    handler.process_inflate().unwrap();

    let pages: Vec<usize> = calls.borrow().iter().map(|call| call.0).collect();
    let expected: Vec<usize> = (1..=6u64).map(|pfn| host(&mem, pfn << 12)).collect();
    assert_eq!(pages, expected);
    assert_eq!(handler.inflate_page_num(), 6);
    assert_eq!(inflate_vq.used().idx().load(), 3);
    for i in 0..3 {
        let entry = inflate_vq.used().ring().ref_at(i).unwrap().load();
        assert_eq!(entry.id(), i as u32);
        assert_eq!(entry.len(), 0);
    }
    handler.process_inflate().unwrap();
    assert_eq!(inflate_vq.used().idx().load(), 3);
    assert_eq!(calls.borrow().len(), 6);
}

#[test]
fn chain_of_several_buffers_is_walked_in_order() {
    let mem = memory();
    let inflate_vq = MockSplitQueue::new(&mem, 16);
    let deflate_vq = MockSplitQueue::create(&mem, GuestAddress(DEFLATE_RINGS), 16);
    write_pfns(&mem, 0x10_0000, &[0x20, 0x21]);
    write_pfns(&mem, 0x10_1000, &[0x30, 0x31, 0x32]);
    inflate_vq
        .add_desc_chains(&[desc(0x10_0000, 8, NEXT_FLAG, 1), desc(0x10_1000, 12, 0, 0)], 0)
        .unwrap();
    let (mut handler, calls, _seen) =
        handler(&mem, inflate_vq.create_queue().unwrap(), deflate_vq.create_queue().unwrap());

    handler.process_inflate().unwrap();

    let pages: Vec<usize> = calls.borrow().iter().map(|call| call.0).collect();
    let expected: Vec<usize> =
        [0x20u64, 0x21, 0x30, 0x31, 0x32].iter().map(|pfn| host(&mem, pfn << 12)).collect();
    assert_eq!(pages, expected);
    assert_eq!(inflate_vq.used().idx().load(), 1);
    assert_eq!(handler.inflate_page_num(), 5);
}

#[test]
fn trailing_bytes_of_a_buffer_are_not_read() {
    let mem = memory();
    let inflate_vq = MockSplitQueue::new(&mem, 16);
    let deflate_vq = MockSplitQueue::create(&mem, GuestAddress(DEFLATE_RINGS), 16);
    write_pfns(&mem, 0x10_0000, &[0x40, 0x41, 0x42]);
    inflate_vq.add_desc_chains(&[desc(0x10_0000, 11, 0, 0)], 0).unwrap();
    let (mut handler, calls, _seen) =
        handler(&mem, inflate_vq.create_queue().unwrap(), deflate_vq.create_queue().unwrap());

    handler.process_inflate().unwrap();

    assert_eq!(calls.borrow().len(), 2);
    assert_eq!(handler.inflate_page_num(), 2);
    assert_eq!(inflate_vq.used().idx().load(), 1);
}

#[test]
fn unmapped_page_is_skipped_and_the_chain_goes_on() {
    let mem = memory();
    let inflate_vq = MockSplitQueue::new(&mem, 16);
    let deflate_vq = MockSplitQueue::create(&mem, GuestAddress(DEFLATE_RINGS), 16);
    write_pfns(&mem, 0x10_0000, &[0x10, 0xffff_ffff, 0x11]);
    inflate_vq.add_desc_chains(&[desc(0x10_0000, 12, 0, 0)], 0).unwrap();
    let (mut handler, calls, _seen) =
        handler(&mem, inflate_vq.create_queue().unwrap(), deflate_vq.create_queue().unwrap());

    handler.process_inflate().unwrap();

    let pages: Vec<usize> = calls.borrow().iter().map(|call| call.0).collect();
    assert_eq!(pages, vec![host(&mem, 0x10000), host(&mem, 0x11000)]);
    assert_eq!(handler.inflate_page_num(), 2);
    assert_eq!(inflate_vq.used().idx().load(), 1);
}

#[test]
fn refused_advice_is_not_counted_and_the_chain_goes_on() {
    let mem = memory();
    let inflate_vq = MockSplitQueue::new(&mem, 16);
    let deflate_vq = MockSplitQueue::create(&mem, GuestAddress(DEFLATE_RINGS), 16);
    write_pfns(&mem, 0x10_0000, &[0x10, 0x11, 0x12]);
    inflate_vq.add_desc_chains(&[desc(0x10_0000, 12, 0, 0)], 0).unwrap();
    let calls: Calls = Rc::new(RefCell::new(Vec::new()));
    let seen = Rc::new(RefCell::new(Vec::new()));
    let mut handler = SimpleHandler::new(
        Signals { seen: seen.clone() },
        Recorder { calls: calls.clone(), refuse: Some(host(&mem, 0x11000)) },
        inflate_vq.create_queue().unwrap(),
        deflate_vq.create_queue().unwrap(),
        mem.clone(),
    );

    handler.process_inflate().unwrap();

    assert_eq!(calls.borrow().len(), 3);
    assert_eq!(handler.inflate_page_num(), 2);
    assert_eq!(inflate_vq.used().idx().load(), 1);
}

#[test]
fn page_operations_report_their_failures() {
    let mem = memory();
    let calls: Calls = Rc::new(RefCell::new(Vec::new()));
    let mut handler = SimpleHandler::new(
        Signals { seen: Rc::new(RefCell::new(Vec::new())) },
        Recorder { calls: calls.clone(), refuse: Some(host(&mem, 0x5000)) },
        Queue::new(16).unwrap(),
        Queue::new(16).unwrap(),
        mem.clone(),
    );

    assert!(handler.inflate_page(4).is_ok());
    assert!(handler.inflate_page(5).is_ok());
    assert!(matches!(handler.inflate_page(0x200), Err(Error::AddressTranslation)));
    assert!(matches!(handler.deflate_page(0x200), Err(Error::AddressTranslation)));
    assert_eq!(handler.inflate_page_num(), 1);
    assert_eq!(calls.borrow().len(), 2);
}

#[test]
fn refused_advice_is_no_failure_of_a_page_operation() {
    let mem = memory();
    let calls: Calls = Rc::new(RefCell::new(Vec::new()));
    let mut handler = SimpleHandler::new(
        Signals { seen: Rc::new(RefCell::new(Vec::new())) },
        Recorder { calls: calls.clone(), refuse: Some(host(&mem, 0x5000)) },
        Queue::new(16).unwrap(),
        Queue::new(16).unwrap(),
        mem.clone(),
    );

    handler.inflate_page(6).unwrap();
    assert!(handler.inflate_page(5).is_ok());
    assert_eq!(handler.inflate_page_num(), 1);
    assert!(handler.deflate_page(5).is_ok());
    assert_eq!(handler.inflate_page_num(), 1);
    assert_eq!(
        *calls.borrow(),
        vec![
            (host(&mem, 0x6000), 4096, Direction::Inflate),
            (host(&mem, 0x5000), 4096, Direction::Inflate),
            (host(&mem, 0x5000), 4096, Direction::Deflate),
        ]
    );
}

#[test]
fn entry_is_decoded_least_significant_byte_first() {
    let mem = memory();
    let (mut handler, calls, _seen) = handler(&mem, Queue::new(16).unwrap(), Queue::new(16).unwrap());

    handler.process_entry(0x10_0000, &[0x34, 0x01, 0, 0], Direction::Inflate).unwrap();
    handler.process_entry(0x10_0004, &[0x34, 0x01, 0, 0], Direction::Deflate).unwrap();
    let unmapped = handler.process_entry(0x10_0008, &[0, 0, 0, 0x80], Direction::Inflate);

    assert!(matches!(unmapped, Err(Error::AddressTranslation)));
    assert_eq!(
        *calls.borrow(),
        vec![
            (host(&mem, 0x134000), 4096, Direction::Inflate),
            (host(&mem, 0x134000), 4096, Direction::Deflate),
        ]
    );
    assert_eq!(handler.inflate_page_num(), 0);
}

#[test]
fn reclaim_then_restore_leaves_the_count() {
    let mem = memory();
    let inflate_vq = MockSplitQueue::new(&mem, 16);
    let deflate_vq = MockSplitQueue::create(&mem, GuestAddress(DEFLATE_RINGS), 16);
    let (mut handler, calls, _seen) =
        handler(&mem, inflate_vq.create_queue().unwrap(), deflate_vq.create_queue().unwrap());

    handler.inflate_page(7).unwrap();
    let before = handler.inflate_page_num();
    handler.inflate_page(9).unwrap();
    assert_eq!(handler.inflate_page_num(), before + 1);
    handler.deflate_page(9).unwrap();

    assert_eq!(handler.inflate_page_num(), before);
    assert_eq!(
        *calls.borrow(),
        vec![
            (host(&mem, 0x7000), 4096, Direction::Inflate),
            (host(&mem, 0x9000), 4096, Direction::Inflate),
            (host(&mem, 0x9000), 4096, Direction::Deflate),
        ]
    );
}

#[test]
fn restoring_with_nothing_reclaimed_keeps_the_count_at_zero() {
    let mem = memory();
    let inflate_vq = MockSplitQueue::new(&mem, 16);
    let deflate_vq = MockSplitQueue::create(&mem, GuestAddress(DEFLATE_RINGS), 16);
    let (mut handler, calls, _seen) =
        handler(&mem, inflate_vq.create_queue().unwrap(), deflate_vq.create_queue().unwrap());

    handler.deflate_page(3).unwrap();

    assert_eq!(handler.inflate_page_num(), 0);
    assert_eq!(calls.borrow().len(), 1);
}

#[test]
fn unreadable_buffer_fails_with_a_guest_memory_error() {
    let mem = memory();
    let inflate_vq = MockSplitQueue::new(&mem, 16);
    let deflate_vq = MockSplitQueue::create(&mem, GuestAddress(DEFLATE_RINGS), 16);
    write_pfns(&mem, (MEM_SIZE - 4) as u64, &[0x10]);
    inflate_vq.add_desc_chains(&[desc((MEM_SIZE - 4) as u64, 8, 0, 0)], 0).unwrap();
    let (mut handler, calls, seen) =
        handler(&mem, inflate_vq.create_queue().unwrap(), deflate_vq.create_queue().unwrap());

    let result = handler.process_inflate();

    assert!(matches!(result, Err(Error::GuestMemory(_))));
    assert_eq!(calls.borrow().len(), 1);
    assert_eq!(handler.inflate_page_num(), 1);
    assert_eq!(inflate_vq.used().idx().load(), 0);
    assert!(seen.borrow().is_empty());
}

#[test]
fn chain_with_an_entry_beyond_the_address_space_is_refused() {
    let mem = memory();
    write_pfns(&mem, 0x10_0000, &[0x10]);
    let (mut handler, calls, _seen) = handler(&mem, Queue::new(16).unwrap(), Queue::new(16).unwrap());

    let buffers = vec![Buffer { addr: 0x10_0000, len: 4 }, Buffer { addr: u64::MAX - 3, len: 8 }];
    let result = handler.process_chain(&buffers, Direction::Inflate);

    assert!(matches!(result, Err(Error::AddressOverflow)));
    assert!(calls.borrow().is_empty());
    assert_eq!(handler.inflate_page_num(), 0);

    let buffers = vec![Buffer { addr: 0x10_0000, len: 4 }, Buffer { addr: u64::MAX - 3, len: 7 }];
    let result = handler.process_chain(&buffers, Direction::Inflate);

    assert!(matches!(result, Err(Error::GuestMemory(_))));
    assert_eq!(*calls.borrow(), vec![(host(&mem, 0x10000), 4096, Direction::Inflate)]);
    assert_eq!(handler.inflate_page_num(), 1);
}

#[test]
fn queue_that_is_not_ready_fails_with_a_queue_error() {
    let mem = memory();
    let (mut handler, calls, seen) = handler(&mem, Queue::new(16).unwrap(), Queue::new(16).unwrap());

    assert!(matches!(handler.process_inflate(), Err(Error::Queue(_))));
    assert!(matches!(handler.process_deflate(), Err(Error::Queue(_))));
    assert!(calls.borrow().is_empty());
    assert!(seen.borrow().is_empty());
}

struct Refilling<'a> {
    queue: &'a MockSplitQueue<'a, GuestMemoryMmap<()>>,
    refilled: Cell<bool>,
    seen: Rc<RefCell<Vec<u16>>>,
}

impl SignalUsedQueue for Refilling<'_> {
    fn signal_used_queue(&self, index: u16) {
        self.seen.borrow_mut().push(index);
        if !self.refilled.replace(true) {
            self.queue.add_desc_chains(&[desc(0x10_1000, 8, 0, 0)], 1).unwrap();
        }
    }
}

#[test]
fn chain_that_arrives_during_the_drain_is_not_left_behind() {
    let mem = memory();
    let inflate_vq = MockSplitQueue::new(&mem, 16);
    let deflate_vq = MockSplitQueue::create(&mem, GuestAddress(DEFLATE_RINGS), 16);
    write_pfns(&mem, 0x10_0000, &[0x10]);
    write_pfns(&mem, 0x10_1000, &[0x20, 0x21]);
    inflate_vq.add_desc_chains(&[desc(0x10_0000, 4, 0, 0)], 0).unwrap();
    let calls: Calls = Rc::new(RefCell::new(Vec::new()));
    let seen = Rc::new(RefCell::new(Vec::new()));
    let mut handler = SimpleHandler::new(
        Refilling { queue: &inflate_vq, refilled: Cell::new(false), seen: seen.clone() },
        Recorder { calls: calls.clone(), refuse: None },
        inflate_vq.create_queue().unwrap(),
        deflate_vq.create_queue().unwrap(),
        mem.clone(),
    );

    handler.process_inflate().unwrap();

    assert_eq!(calls.borrow().len(), 3);
    assert_eq!(handler.inflate_page_num(), 3);
    assert_eq!(inflate_vq.used().idx().load(), 2);
    assert_eq!(inflate_vq.used().ring().ref_at(1).unwrap().load().id(), 1);
    assert_eq!(*seen.borrow(), vec![0, 0]);
}

#[test]
fn driver_is_signalled_only_where_its_used_event_asks() {
    for (used_event, expected) in [(5u16, Vec::new()), (0u16, vec![0u16])] {
        let mem = memory();
        let inflate_vq = MockSplitQueue::new(&mem, 16);
        let deflate_vq = MockSplitQueue::create(&mem, GuestAddress(DEFLATE_RINGS), 16);
        write_pfns(&mem, 0x10_0000, &[0x10]);
        inflate_vq.add_desc_chains(&[desc(0x10_0000, 4, 0, 0)], 0).unwrap();
        let used_event_addr = GuestAddress(inflate_vq.avail_addr().0 + 4 + 2 * 16);
        mem.write_slice(&used_event.to_le_bytes(), used_event_addr).unwrap();
        let mut inflate: Queue = inflate_vq.create_queue().unwrap();
        inflate.set_event_idx(true);
        let (mut handler, calls, seen) = handler(&mem, inflate, deflate_vq.create_queue().unwrap());

        handler.process_inflate().unwrap();

        assert_eq!(calls.borrow().len(), 1);
        assert_eq!(inflate_vq.used().idx().load(), 1);
        assert_eq!(*seen.borrow(), expected);
    }
}

#[test]
fn bounded_drain_gives_up_at_its_limit() {
    let mem = memory();
    let inflate_vq = MockSplitQueue::new(&mem, 16);
    let deflate_vq = MockSplitQueue::create(&mem, GuestAddress(DEFLATE_RINGS), 16);
    write_pfns(&mem, 0x10_0000, &[1, 2]);
    inflate_vq
        .add_desc_chains(&[desc(0x10_0000, 4, 0, 0), desc(0x10_0004, 4, 0, 0)], 0)
        .unwrap();
    let (mut handler, calls, _seen) =
        handler(&mem, inflate_vq.create_queue().unwrap(), deflate_vq.create_queue().unwrap());

    assert!(matches!(handler.drain_within(Direction::Inflate, 0), Err(Error::DrainLimit)));
    assert!(calls.borrow().is_empty());
    assert!(matches!(handler.drain_within(Direction::Inflate, 2), Err(Error::DrainLimit)));
    assert_eq!(calls.borrow().len(), 1);
    assert_eq!(inflate_vq.used().idx().load(), 1);

    handler.drain(Direction::Inflate).unwrap();
    assert_eq!(calls.borrow().len(), 2);
    assert_eq!(inflate_vq.used().idx().load(), 2);
    assert_eq!(handler.inflate_page_num(), 2);
}
