use std::cell::RefCell;
use std::rc::Rc;

use virtio_balloon::ledger::Direction;
use virtio_balloon::queue_handler::{
    event_data, event_direction, DispatchError, QueueHandler, DEFLATE_IOEVENT_DATA,
    INFLATE_IOEVENT_DATA,
};
use virtio_balloon::simple_handler::{Error, HostAdvisor, SignalUsedQueue, SimpleHandler};
use virtio_queue::desc::split::Descriptor as SplitDescriptor;
use virtio_queue::desc::RawDescriptor;
use virtio_queue::mock::MockSplitQueue;
use virtio_queue::{Queue, QueueT};
use vm_memory::{Bytes, GuestAddress, GuestMemoryMmap};

struct Counting {
    calls: Rc<RefCell<Vec<Direction>>>,
}

impl HostAdvisor for Counting {
    fn advise(&mut self, _host_addr: usize, _len: usize, direction: Direction) -> bool {
        self.calls.borrow_mut().push(direction);
        true
    }
}

struct Quiet;

impl SignalUsedQueue for Quiet {
    fn signal_used_queue(&self, _index: u16) {}
}

fn memory() -> GuestMemoryMmap<()> {
    GuestMemoryMmap::<()>::from_ranges(&[(GuestAddress(0), 0x20_0000)]).unwrap()
}

fn one_page_chain(mem: &GuestMemoryMmap<()>, queue: &MockSplitQueue<GuestMemoryMmap<()>>, at: u64) {
    mem.write_slice(&0x10u32.to_le_bytes(), GuestAddress(at)).unwrap();
    let desc = RawDescriptor::from(SplitDescriptor::new(at, 4, 0, 0));
    queue.add_desc_chains(&[desc], 0).unwrap();
}

#[test]
fn tags_and_queues_correspond() {
    assert_eq!(event_direction(INFLATE_IOEVENT_DATA), Some(Direction::Inflate));
    assert_eq!(event_direction(DEFLATE_IOEVENT_DATA), Some(Direction::Deflate));
    assert_eq!(event_direction(0), Some(Direction::Inflate));
    assert_eq!(event_direction(1), Some(Direction::Deflate));
    assert_eq!(event_direction(2), None);
    assert_eq!(event_direction(u32::MAX), None);
    assert_eq!(event_data(Direction::Inflate), 0);
    assert_eq!(event_data(Direction::Deflate), 1);
    for direction in [Direction::Inflate, Direction::Deflate] {
        assert_eq!(event_direction(event_data(direction)), Some(direction));
    }
}

#[test]
fn each_doorbell_is_registered_once_with_its_tag() {
    let mem = memory();
    let handler = QueueHandler {
        inner: SimpleHandler::new(
            Quiet,
            Counting { calls: Rc::new(RefCell::new(Vec::new())) },
            Queue::new(16).unwrap(),
            Queue::new(16).unwrap(),
            mem,
        ),
    };
    assert_eq!(handler.init(), vec![(Direction::Inflate, 0), (Direction::Deflate, 1)]);
}

#[test]
fn ready_doorbell_drains_its_queue_only() {
    let mem = memory();
    let inflate_vq = MockSplitQueue::new(&mem, 16);
    let deflate_vq = MockSplitQueue::create(&mem, GuestAddress(0x4000), 16);
    one_page_chain(&mem, &inflate_vq, 0x10_0000);
    one_page_chain(&mem, &deflate_vq, 0x10_1000);
    let calls = Rc::new(RefCell::new(Vec::new()));
    let mut handler = QueueHandler {
        inner: SimpleHandler::new(
            Quiet,
            Counting { calls: calls.clone() },
            inflate_vq.create_queue().unwrap(),
            deflate_vq.create_queue().unwrap(),
            mem.clone(),
        ),
    };

    assert!(handler.process(INFLATE_IOEVENT_DATA, true).is_ok());
    assert_eq!(*calls.borrow(), vec![Direction::Inflate]);
    assert_eq!(inflate_vq.used().idx().load(), 1);
    assert_eq!(deflate_vq.used().idx().load(), 0);
    assert_eq!(handler.inner.inflate_page_num(), 1);

    assert!(handler.process(DEFLATE_IOEVENT_DATA, true).is_ok());
    assert_eq!(*calls.borrow(), vec![Direction::Inflate, Direction::Deflate]);
    assert_eq!(deflate_vq.used().idx().load(), 1);
    assert_eq!(handler.inner.inflate_page_num(), 0);
}

#[test]
fn unknown_tag_and_unread_doorbell_leave_the_queues_alone() {
    let mem = memory();
    let inflate_vq = MockSplitQueue::new(&mem, 16);
    let deflate_vq = MockSplitQueue::create(&mem, GuestAddress(0x4000), 16);
    one_page_chain(&mem, &inflate_vq, 0x10_0000);
    let calls = Rc::new(RefCell::new(Vec::new()));
    let mut handler = QueueHandler {
        inner: SimpleHandler::new(
            Quiet,
            Counting { calls: calls.clone() },
            inflate_vq.create_queue().unwrap(),
            deflate_vq.create_queue().unwrap(),
            mem.clone(),
        ),
    };

    assert!(matches!(handler.process(7, true), Err(DispatchError::UnexpectedData(7))));
    assert!(matches!(handler.process(INFLATE_IOEVENT_DATA, false), Err(DispatchError::Doorbell)));
    assert!(matches!(handler.process(DEFLATE_IOEVENT_DATA, false), Err(DispatchError::Doorbell)));
    assert!(calls.borrow().is_empty());
    assert_eq!(inflate_vq.used().idx().load(), 0);
}

#[test]
fn failure_of_one_queue_leaves_the_other_working() {
    let mem = memory();
    let deflate_vq = MockSplitQueue::create(&mem, GuestAddress(0x4000), 16);
    one_page_chain(&mem, &deflate_vq, 0x10_1000);
    let calls = Rc::new(RefCell::new(Vec::new()));
    let mut handler = QueueHandler {
        inner: SimpleHandler::new(
            Quiet,
            Counting { calls: calls.clone() },
            Queue::new(16).unwrap(),
            deflate_vq.create_queue().unwrap(),
            mem.clone(),
        ),
    };

    let failed = handler.process(INFLATE_IOEVENT_DATA, true);
    assert!(matches!(failed, Err(DispatchError::Handler(Error::Queue(_)))));
    assert!(handler.process(DEFLATE_IOEVENT_DATA, true).is_ok());
    assert_eq!(*calls.borrow(), vec![Direction::Deflate]);
    assert_eq!(deflate_vq.used().idx().load(), 1);
}
