//! The data path of the balloon: page operations, the walk over one
//! descriptor chain, and the draining of a queue.

use vstd::prelude::*;
use virtio_queue::{Error as QueueError, Queue};
use vm_memory::GuestMemoryMmap;
use crate::ledger::{
    apply_outcome, count_after, count_posted, count_taken, lemma_count_after_push,
    lemma_counts_push, posted_in, taken_in, well_made, Direction, Outcome, PageOp, QueueStep,
};
use crate::outside::{
    add_used, chain_buffers, chain_head, disable_notification, enable_notification, host_address,
    lemma_ring_advance_successor, needs_notification, next_chain, queue_next_avail,
    queue_next_used, read_entry, ring_advance, ring_successor,
};
use crate::pfn::{
    buffer_in_range, chain_entry_address, chain_in_range, checked_entry_address, complete_entries,
    entry_count, guest_page_address, le_u32, lemma_chain_entry_address,
    lemma_total_entries_prefix, lemma_total_entries_push, pfn_from_bytes, total_entries, Buffer,
    BALLOON_PAGE_SIZE,
};

verus! {

/// The number of steps after which a draining gives up where no other
/// limit is given.
pub const DRAIN_LIMIT: u64 = u64::MAX;

/// The index of the inflate queue among the device's queues.
pub const INFLATE_QUEUE_INDEX: u16 = 0;

/// The index of the deflate queue among the device's queues.
pub const DEFLATE_QUEUE_INDEX: u16 = 1;

/// What can go wrong on the data path.
#[derive(Debug)]
pub enum Error {
    /// Guest memory could not be read.
    GuestMemory(vm_memory::GuestMemoryError),
    /// The queue refused an operation: its rings are malformed or out of
    /// reach.
    Queue(QueueError),
    /// An entry of a buffer lies beyond the end of the address space.
    AddressOverflow,
    /// A page lies in no mapped region of guest memory.
    AddressTranslation,
    /// A draining took as many steps as its limit allows without reaching
    /// an empty queue.
    DrainLimit,
}

impl From<vm_memory::GuestMemoryError> for Error {
    fn from(e: vm_memory::GuestMemoryError) -> (error: Error) {
        Error::GuestMemory(e)
    }
}

impl vstd::std_specs::convert::FromSpecImpl<vm_memory::GuestMemoryError> for Error {
    open spec fn obeys_from_spec() -> bool {
        true
    }

    open spec fn from_spec(e: vm_memory::GuestMemoryError) -> Error {
        Error::GuestMemory(e)
    }
}

impl From<QueueError> for Error {
    fn from(e: QueueError) -> (error: Error) {
        Error::Queue(e)
    }
}

impl vstd::std_specs::convert::FromSpecImpl<QueueError> for Error {
    open spec fn obeys_from_spec() -> bool {
        true
    }

    open spec fn from_spec(e: QueueError) -> Error {
        Error::Queue(e)
    }
}

/// The way to tell the driver that a queue has new used entries.
pub trait SignalUsedQueue {
    /// Signals that the queue with the given index has used entries.
    fn signal_used_queue(&self, index: u16);
}

/// The way to advise the host about one page of this process's memory.
pub trait HostAdvisor {
    /// Advises the host that the `len` bytes at `host_addr` are no longer
    /// needed (`Direction::Inflate`) or will be needed (`Direction::Deflate`),
    /// and says whether the host took the advice.
    fn advise(&mut self, host_addr: usize, len: usize, direction: Direction) -> bool;
}

/// Processes the two queues of a balloon device, with no assumption on how
/// the driver is notified or how the host is advised.
pub struct SimpleHandler<S: SignalUsedQueue, A: HostAdvisor> {
    driver_notify: S,
    advisor: A,
    inflate: Queue,
    deflate: Queue,
    guest_mem: GuestMemoryMmap<()>,
    inflate_page_num: u64,
    ledger: Ghost<Seq<PageOp>>,
    inflate_steps: Ghost<Seq<QueueStep>>,
    deflate_steps: Ghost<Seq<QueueStep>>,
}

/// The index by which the driver knows the queue of a direction.
pub open spec fn queue_index(direction: Direction) -> u16 {
    match direction {
        Direction::Inflate => INFLATE_QUEUE_INDEX,
        Direction::Deflate => DEFLATE_QUEUE_INDEX,
    }
}

/// The other direction.
pub open spec fn opposite(direction: Direction) -> Direction {
    match direction {
        Direction::Inflate => Direction::Deflate,
        Direction::Deflate => Direction::Inflate,
    }
}

/// Whether `after` is `before` with operations of the given direction
/// added at its end.
pub open spec fn grown_by(before: Seq<PageOp>, after: Seq<PageOp>, direction: Direction) -> bool {
    &&& before.len() <= after.len()
    &&& after.subrange(0, before.len() as int) =~= before
    &&& forall|k: int| before.len() <= k < after.len() ==> (#[trigger] after[k]).direction == direction
}

/// Whether the frame number of an operation was read at the guest address
/// `addr`.
pub open spec fn read_from(op: PageOp, addr: int) -> bool {
    op.source == Some(addr as u64) && op.bytes is Some
}

/// Whether the operations that `after` holds beyond `before` were read from
/// the entries of a chain in the chain's order: the first from its first
/// entry, the next from its second, and so on.
pub open spec fn read_in_order(before: Seq<PageOp>, after: Seq<PageOp>, buffers: Seq<Buffer>) -> bool {
    forall|k: int|
        0 <= k < after.len() - before.len() ==> read_from(
            #[trigger] after[before.len() + k],
            chain_entry_address(buffers, k as nat),
        )
}

/// Whether the operations of `history` from number `at` on are those of a
/// whole chain: one for each entry of its buffers, read in the chain's
/// order.
pub open spec fn segment_read(history: Seq<PageOp>, at: nat, buffers: Seq<Buffer>) -> bool {
    &&& at + total_entries(buffers) <= history.len()
    &&& forall|j: int|
        0 <= j < total_entries(buffers) ==> read_from(
            #[trigger] history[at + j],
            chain_entry_address(buffers, j as nat),
        )
}

/// Whether `after` is `before` with one operation more: that of the given
/// direction on the page with frame number `pfn`, read from `source` as
/// `bytes` where it was read. The operation fails, with
/// `Error::AddressTranslation`, exactly where the page lies nowhere in this
/// process; advice that the host refuses is no failure.
pub open spec fn one_more(
    before: Seq<PageOp>,
    after: Seq<PageOp>,
    direction: Direction,
    pfn: u32,
    source: Option<u64>,
    bytes: Option<Seq<u8>>,
    result: Result<(), Error>,
) -> bool {
    &&& after.len() == before.len() + 1
    &&& after.drop_last() =~= before
    &&& after.last().direction == direction
    &&& after.last().pfn == pfn
    &&& after.last().source == source
    &&& after.last().bytes == bytes
    &&& well_made(after.last())
    &&& result is Err <==> after.last().outcome == Outcome::Unmapped
    &&& result matches Err(e) ==> e is AddressTranslation
}

/// Whether a chain may be looked for after the step `last`: at the start
/// of a round, and after a chain was handed back and the driver signalled
/// where it wanted that.
pub open spec fn before_a_chain(last: QueueStep) -> bool {
    last is Suppressed || last == (QueueStep::Asked { wanted: false }) || last is Signalled
}

/// Whether the step `second` may come right after the step `first` on the
/// queue of a direction. Notifications are suppressed before chains are
/// looked for. A chain that was taken is handed back with its own head and
/// length zero, after one page operation for each entry of its buffers;
/// then the queue is asked whether the driver wants an interrupt, and the
/// driver is signalled with the queue's index exactly where it does. Only
/// an empty ring leads to asking for notifications again, and only chains
/// that were waiting by then lead to another round.
pub open spec fn follows(first: QueueStep, second: QueueStep, direction: Direction) -> bool {
    match first {
        QueueStep::Suppressed => second is Taken || second is Empty,
        QueueStep::Taken { head_index, buffers, at } => second == (QueueStep::Posted {
            head_index,
            len: 0,
            upto: at + total_entries(buffers),
        }),
        QueueStep::Posted { .. } => second is Asked,
        QueueStep::Asked { wanted } => if wanted {
            second == (QueueStep::Signalled { index: queue_index(direction) })
        } else {
            second is Taken || second is Empty
        },
        QueueStep::Signalled { .. } => second is Taken || second is Empty,
        QueueStep::Empty => second is Resumed,
        QueueStep::Resumed { pending } => pending && second is Suppressed,
    }
}

/// Whether the steps that `after` holds beyond `before` are the steps of a
/// draining, as far as it came: it begins by suppressing notifications, and
/// each step follows the one before it.
#[verifier::opaque]
pub open spec fn running(before: Seq<QueueStep>, after: Seq<QueueStep>, direction: Direction) -> bool {
    &&& before.len() <= after.len()
    &&& after.subrange(0, before.len() as int) =~= before
    &&& before.len() < after.len() ==> after[before.len() as int] is Suppressed
    &&& forall|k: int|
        before.len() <= k < after.len() - 1 ==> follows(#[trigger] after[k], after[k + 1], direction)
}

/// Whether the steps that `after` holds beyond `before` are the steps of a
/// draining. One that `completed` ended with the queue's answer that no
/// chain is waiting.
pub open spec fn protocol(
    before: Seq<QueueStep>,
    after: Seq<QueueStep>,
    direction: Direction,
    completed: bool,
) -> bool {
    &&& running(before, after, direction)
    &&& completed ==> before.len() < after.len() && after.last() == (QueueStep::Resumed {
        pending: false,
    })
}

/// Whether every chain that the steps from number `from` on took and went
/// on from was walked: the history holds, from the operation that the
/// chain was taken at, one operation for each entry of the chain's
/// buffers, read in the chain's order.
#[verifier::opaque]
pub open spec fn chains_walked(from: int, steps: Seq<QueueStep>, history: Seq<PageOp>) -> bool {
    forall|k: int|
        from <= k < steps.len() - 1 && (#[trigger] steps[k]) is Taken ==> segment_read(
            history,
            steps[k]->at,
            steps[k]->buffers,
        )
}

/// Whether a draining may have ended with `result`, given the steps that
/// it made and the limit it was given. It gives up only after as many steps
/// as its limit. A chain walk that fails, on a chain out of range or on a
/// read, ends the draining with that chain taken and not handed back. Any
/// other failure is the queue's.
pub open spec fn failed_as(
    result: Result<(), Error>,
    before: Seq<QueueStep>,
    after: Seq<QueueStep>,
    limit: u64,
) -> bool {
    match result {
        Ok(()) => true,
        Err(Error::DrainLimit) => after.len() - before.len() >= limit,
        Err(Error::Queue(_)) => true,
        Err(Error::GuestMemory(_)) | Err(Error::AddressOverflow) => before.len() < after.len()
            && after.last() is Taken,
        Err(_) => false,
    }
}

/// How the queue of a direction stands after a draining, against how it
/// stood before. Chains were only taken and entries only posted; no more
/// entries were posted than chains taken; where no chain was taken no page
/// operation was made. The available position moved on by the number of
/// chains taken; where every taken chain was handed back, the used
/// position moved on by the number of entries posted. A draining that
/// `completed` handed every taken chain back.
pub open spec fn drained<S: SignalUsedQueue, A: HostAdvisor>(
    before: &SimpleHandler<S, A>,
    after: &SimpleHandler<S, A>,
    direction: Direction,
    completed: bool,
) -> bool {
    let taken = after.chains_taken(direction) - before.chains_taken(direction);
    let posted = after.entries_posted(direction) - before.entries_posted(direction);
    &&& 0 <= posted <= taken
    &&& taken <= posted + 1
    &&& taken == 0 ==> after.history() == before.history()
    &&& completed ==> posted == taken
    &&& after.next_avail(direction) == ring_advance(before.next_avail(direction), taken)
    &&& posted == taken ==> after.next_used(direction) == ring_advance(
        before.next_used(direction),
        posted,
    )
}

impl<S: SignalUsedQueue, A: HostAdvisor> SimpleHandler<S, A> {
    /// Every page operation made so far, in order.
    pub closed spec fn history(&self) -> Seq<PageOp> {
        self.ledger@
    }

    /// The count of pages currently reclaimed.
    pub closed spec fn page_count(&self) -> u64 {
        self.inflate_page_num
    }

    /// Every step made on the queue of a direction so far, in order.
    pub closed spec fn steps(&self, direction: Direction) -> Seq<QueueStep> {
        match direction {
            Direction::Inflate => self.inflate_steps@,
            Direction::Deflate => self.deflate_steps@,
        }
    }

    /// How many chains were taken from the queue of a direction so far:
    /// the number of its steps `Taken`.
    pub open spec fn chains_taken(&self, direction: Direction) -> nat {
        count_taken(self.steps(direction))
    }

    /// How many used entries were posted to the queue of a direction so
    /// far: the number of its steps `Posted`.
    pub open spec fn entries_posted(&self, direction: Direction) -> nat {
        count_posted(self.steps(direction))
    }

    /// The position in the available ring of the queue of a direction.
    pub closed spec fn next_avail(&self, direction: Direction) -> u16 {
        match direction {
            Direction::Inflate => queue_next_avail(self.inflate),
            Direction::Deflate => queue_next_avail(self.deflate),
        }
    }

    /// The position in the used ring of the queue of a direction.
    pub closed spec fn next_used(&self, direction: Direction) -> u16 {
        match direction {
            Direction::Inflate => queue_next_used(self.inflate),
            Direction::Deflate => queue_next_used(self.deflate),
        }
    }

    /// The count of reclaimed pages is what the history of page operations
    /// gives, counted from zero, and every operation in it is well made.
    pub open spec fn wf(&self) -> bool {
        &&& self.page_count() == count_after(0, self.history())
        &&& forall|k: int| 0 <= k < self.history().len() ==> well_made(#[trigger] self.history()[k])
    }

    /// Whether the queue of a direction is as it was in `before`: same
    /// ring positions and no step made.
    pub open spec fn queue_untouched(&self, before: &Self, direction: Direction) -> bool {
        &&& self.next_avail(direction) == before.next_avail(direction)
        &&& self.next_used(direction) == before.next_used(direction)
        &&& self.steps(direction) == before.steps(direction)
    }

    /// Whether one step was made on the queue of a direction since
    /// `before`, or none where `step` is `None`, and the other queue is as
    /// it was. No page operation was made.
    pub open spec fn stepped(
        &self,
        before: &Self,
        direction: Direction,
        step: Option<QueueStep>,
    ) -> bool {
        &&& self.history() == before.history()
        &&& self.page_count() == before.page_count()
        &&& self.queue_untouched(before, opposite(direction))
        &&& self.steps(direction) == match step {
            Some(step) => before.steps(direction).push(step),
            None => before.steps(direction),
        }
    }

    /// Makes a handler for two queues over the given guest memory, with no
    /// page reclaimed and nothing done yet.
    pub fn new(
        driver_notify: S,
        advisor: A,
        inflate: Queue,
        deflate: Queue,
        guest_mem: GuestMemoryMmap<()>,
    ) -> (handler: Self)
        ensures
            handler.wf(),
            handler.page_count() == 0,
            handler.history() == Seq::<PageOp>::empty(),
            forall|d: Direction| handler.steps(d) == Seq::<QueueStep>::empty(),
            handler.next_avail(Direction::Inflate) == queue_next_avail(inflate),
            handler.next_used(Direction::Inflate) == queue_next_used(inflate),
            handler.next_avail(Direction::Deflate) == queue_next_avail(deflate),
            handler.next_used(Direction::Deflate) == queue_next_used(deflate),
    {
        SimpleHandler {
            driver_notify,
            advisor,
            inflate,
            deflate,
            guest_mem,
            inflate_page_num: 0,
            ledger: Ghost(Seq::empty()),
            inflate_steps: Ghost(Seq::empty()),
            deflate_steps: Ghost(Seq::empty()),
        }
    }

    /// The count of pages currently reclaimed.
    pub fn inflate_page_num(&self) -> (count: u64)
        ensures
            count == self.page_count(),
    {
        self.inflate_page_num
    }

    /// Makes one page operation: finds the page in this process's memory,
    /// advises the host about it, and counts the page where the host took
    /// the advice.
    fn page_operation(
        &mut self,
        pfn: u32,
        direction: Direction,
        Ghost(source): Ghost<Option<u64>>,
        Ghost(bytes): Ghost<Option<Seq<u8>>>,
    ) -> (result: Result<(), Error>)
        requires
            old(self).wf(),
            source is Some <==> bytes is Some,
            bytes matches Some(read) ==> read.len() == 4 && pfn == le_u32(read),
        ensures
            final(self).wf(),
            one_more(old(self).history(), final(self).history(), direction, pfn, source, bytes, result),
            final(self).queue_untouched(old(self), Direction::Inflate),
            final(self).queue_untouched(old(self), Direction::Deflate),
    {
        let page = guest_page_address(pfn);
        let len = BALLOON_PAGE_SIZE as usize;
        let host = host_address(&self.guest_mem, page);
        let outcome = match host {
            None => Outcome::Unmapped,
            Some(host_addr) => {
                if self.advisor.advise(host_addr, len, direction) {
                    Outcome::Advised
                } else {
                    Outcome::Refused
                }
            },
        };
        let ghost op = PageOp { direction, pfn, page, host, len, outcome, source, bytes };
        proof {
            lemma_count_after_push(0, self.ledger@, op);
        }
        self.inflate_page_num = apply_outcome(self.inflate_page_num, direction, outcome);
        proof {
            self.ledger@ = self.ledger@.push(op);
            assert(self.ledger@.drop_last() =~= old(self).ledger@);
        }
        match outcome {
            Outcome::Unmapped => Err(Error::AddressTranslation),
            _ => Ok(()),
        }
    }

    /// Reclaims the page with frame number `pfn`: advises the host that its
    /// content is no longer needed. The count of reclaimed pages grows by
    /// one where the host took the advice, and stays otherwise. It fails
    /// only where the page lies nowhere in this process.
    pub fn inflate_page(&mut self, pfn: u32) -> (result: Result<(), Error>)
        requires
            old(self).wf(),
        ensures
            final(self).wf(),
            one_more(
                old(self).history(),
                final(self).history(),
                Direction::Inflate,
                pfn,
                None,
                None,
                result,
            ),
            final(self).queue_untouched(old(self), Direction::Inflate),
            final(self).queue_untouched(old(self), Direction::Deflate),
    {
        self.page_operation(pfn, Direction::Inflate, Ghost(None), Ghost(None))
    }

    /// Restores the page with frame number `pfn`: advises the host that it
    /// will be needed. The count of reclaimed pages falls by one where the
    /// host took the advice and the count was not zero, and stays otherwise.
    /// It fails only where the page lies nowhere in this process.
    pub fn deflate_page(&mut self, pfn: u32) -> (result: Result<(), Error>)
        requires
            old(self).wf(),
        ensures
            final(self).wf(),
            one_more(
                old(self).history(),
                final(self).history(),
                Direction::Deflate,
                pfn,
                None,
                None,
                result,
            ),
            final(self).queue_untouched(old(self), Direction::Inflate),
            final(self).queue_untouched(old(self), Direction::Deflate),
    {
        self.page_operation(pfn, Direction::Deflate, Ghost(None), Ghost(None))
    }

    /// Makes the page operation for one entry of a chain: `bytes` are the
    /// four bytes read at the guest address `addr`, and the frame number is
    /// the number that they write, least significant byte first.
    pub fn process_entry(&mut self, addr: u64, bytes: &[u8; 4], direction: Direction) -> (result:
        Result<(), Error>)
        requires
            old(self).wf(),
        ensures
            final(self).wf(),
            one_more(
                old(self).history(),
                final(self).history(),
                direction,
                le_u32(bytes@) as u32,
                Some(addr),
                Some(bytes@),
                result,
            ),
            final(self).queue_untouched(old(self), Direction::Inflate),
            final(self).queue_untouched(old(self), Direction::Deflate),
    {
        let pfn = pfn_from_bytes(bytes);
        self.page_operation(pfn, direction, Ghost(Some(addr)), Ghost(Some(bytes@)))
    }

    /// Walks one descriptor chain, given as its buffers in order: reads
    /// every complete entry of every buffer and makes the page operation of
    /// the given direction for it. A chain with an entry beyond the end of
    /// the address space is refused before anything is read. A page
    /// operation that fails does not stop the walk; a failed read does.
    pub fn process_chain(&mut self, buffers: &Vec<Buffer>, direction: Direction) -> (result: Result<
        (),
        Error,
    >)
        requires
            old(self).wf(),
        ensures
            final(self).wf(),
            grown_by(old(self).history(), final(self).history(), direction),
            final(self).history().len() - old(self).history().len() <= total_entries(buffers@),
            result is Ok ==> final(self).history().len() - old(self).history().len()
                == total_entries(buffers@),
            read_in_order(old(self).history(), final(self).history(), buffers@),
            final(self).queue_untouched(old(self), Direction::Inflate),
            final(self).queue_untouched(old(self), Direction::Deflate),
            !chain_in_range(buffers@) ==> final(self).history() == old(self).history(),
            !chain_in_range(buffers@) <==> result matches Err(Error::AddressOverflow),
            chain_in_range(buffers@) && total_entries(buffers@) == 0 ==> result is Ok,
            result matches Err(e) ==> (e is AddressOverflow || e is GuestMemory),
    {
        if !chain_fits(buffers) {
            return Err(Error::AddressOverflow);
        }
        let ghost start = self.history();
        let ghost before = *self;
        let mut j: usize = 0;
        while j < buffers.len()
            invariant
                j <= buffers.len(),
                chain_in_range(buffers@),
                start == old(self).history(),
                before == *old(self),
                self.wf(),
                grown_by(start, self.history(), direction),
                read_in_order(start, self.history(), buffers@),
                self.history().len() == start.len() + total_entries(buffers@.take(j as int)),
                self.queue_untouched(&before, Direction::Inflate),
                self.queue_untouched(&before, Direction::Deflate),
            decreases buffers.len() - j,
        {
            let buffer = buffers[j];
            let count = complete_entries(buffer.len);
            proof {
                lemma_total_entries_push(buffers@.take(j as int), buffer);
                assert(buffers@.take(j + 1) =~= buffers@.take(j as int).push(buffer));
                lemma_total_entries_prefix(buffers@, j + 1);
                assert(buffer_in_range(buffers@[j as int]));
            }
            let mut i: u32 = 0;
            while i < count
                invariant
                    i <= count,
                    count == entry_count(buffer.len),
                    buffer_in_range(buffer),
                    chain_in_range(buffers@),
                    start == old(self).history(),
                    before == *old(self),
                    self.wf(),
                    grown_by(start, self.history(), direction),
                    read_in_order(start, self.history(), buffers@),
                    j < buffers.len(),
                    buffer == buffers@[j as int],
                    self.history().len() == start.len() + total_entries(buffers@.take(j as int))
                        + i,
                    total_entries(buffers@.take(j as int)) + count <= total_entries(buffers@),
                    self.queue_untouched(&before, Direction::Inflate),
                    self.queue_untouched(&before, Direction::Deflate),
                decreases count - i,
            {
                let addr = buffer.addr + 4 * (i as u64);
                let bytes = match read_entry(&self.guest_mem, addr) {
                    Ok(bytes) => bytes,
                    Err(e) => {
                        return Err(Error::from(e));
                    },
                };
                let ghost earlier = self.history();
                proof {
                    lemma_chain_entry_address(buffers@, j as int, i as nat);
                }
                let _ = self.process_entry(addr, &bytes, direction);
                proof {
                    assert forall|k: int| 0 <= k < earlier.len() implies (
                    #[trigger] self.history()[k]) == earlier[k] by {
                        assert(self.history().drop_last()[k] == earlier[k]);
                    }
                    assert(self.history().subrange(0, start.len() as int) =~= earlier.subrange(
                        0,
                        start.len() as int,
                    ));
                    assert(read_in_order(start, self.history(), buffers@)) by {
                        assert forall|k: int| 0 <= k < self.history().len() - start.len() implies read_from(
                            #[trigger] self.history()[start.len() + k],
                            chain_entry_address(buffers@, k as nat),
                        ) by {
                            if k < earlier.len() - start.len() {
                                assert(self.history()[start.len() + k] == earlier[start.len() + k]);
                            }
                        }
                    }
                }
                i += 1;
            }
            j += 1;
        }
        assert(buffers@.take(j as int) =~= buffers@);
        Ok(())
    }

    /// Asks the driver of a queue for no further notifications. Where the
    /// queue takes the request, that is one step `Suppressed` on the queue;
    /// where it fails, no step is made. Ring positions stay.
    fn suppress_notifications(&mut self, direction: Direction) -> (result: Result<(), Error>)
        ensures
            final(self).stepped(
                old(self),
                direction,
                match result {
                    Ok(()) => Some(QueueStep::Suppressed),
                    Err(_) => None,
                },
            ),
            final(self).next_avail(direction) == old(self).next_avail(direction),
            final(self).next_used(direction) == old(self).next_used(direction),
            result matches Err(e) ==> e is Queue,
    {
        let done = match direction {
            Direction::Inflate => disable_notification(&mut self.inflate, &self.guest_mem),
            Direction::Deflate => disable_notification(&mut self.deflate, &self.guest_mem),
        };
        match done {
            Ok(()) => {
                self.note(direction, Ghost(QueueStep::Suppressed));
                Ok(())
            },
            Err(e) => Err(Error::from(e)),
        }
    }

    /// Asks the driver of a queue for notifications again, and says whether
    /// chains are waiting. Where the queue answers, that is one step
    /// `Resumed` with its answer; where it fails, no step is made. Ring
    /// positions stay.
    fn resume_notifications(&mut self, direction: Direction) -> (result: Result<bool, Error>)
        ensures
            final(self).stepped(
                old(self),
                direction,
                match result {
                    Ok(pending) => Some(QueueStep::Resumed { pending }),
                    Err(_) => None,
                },
            ),
            final(self).next_avail(direction) == old(self).next_avail(direction),
            final(self).next_used(direction) == old(self).next_used(direction),
            result matches Err(e) ==> e is Queue,
    {
        let pending = match direction {
            Direction::Inflate => enable_notification(&mut self.inflate, &self.guest_mem),
            Direction::Deflate => enable_notification(&mut self.deflate, &self.guest_mem),
        };
        match pending {
            Ok(pending) => {
                self.note(direction, Ghost(QueueStep::Resumed { pending }));
                Ok(pending)
            },
            Err(e) => Err(Error::from(e)),
        }
    }

    /// Says whether the driver of a queue wants an interrupt for the
    /// entries posted so far. Where the queue answers, that is one step
    /// `Asked` with its answer; where it fails, no step is made. Ring
    /// positions stay.
    fn wants_interrupt(&mut self, direction: Direction) -> (result: Result<bool, Error>)
        ensures
            final(self).stepped(
                old(self),
                direction,
                match result {
                    Ok(wanted) => Some(QueueStep::Asked { wanted }),
                    Err(_) => None,
                },
            ),
            final(self).next_avail(direction) == old(self).next_avail(direction),
            final(self).next_used(direction) == old(self).next_used(direction),
            result matches Err(e) ==> e is Queue,
    {
        let wanted = match direction {
            Direction::Inflate => needs_notification(&mut self.inflate, &self.guest_mem),
            Direction::Deflate => needs_notification(&mut self.deflate, &self.guest_mem),
        };
        match wanted {
            Ok(wanted) => {
                self.note(direction, Ghost(QueueStep::Asked { wanted }));
                Ok(wanted)
            },
            Err(e) => Err(Error::from(e)),
        }
    }

    /// Takes the next chain from a queue, if there is one, as the index of
    /// its head and its buffers in order. A chain that comes back is one
    /// step `Taken` with its head, its buffers and the number of page
    /// operations made so far, and the available position moves on by one;
    /// a ring without a chain is one step `Empty`; where the queue fails,
    /// no step is made.
    fn take_chain(&mut self, direction: Direction) -> (result: Result<
        Option<(u16, Vec<Buffer>)>,
        Error,
    >)
        ensures
            final(self).stepped(
                old(self),
                direction,
                match result {
                    Ok(Some(chain)) => Some(
                        QueueStep::Taken {
                            head_index: chain.0,
                            buffers: chain.1@,
                            at: old(self).history().len(),
                        },
                    ),
                    Ok(None) => Some(QueueStep::Empty),
                    Err(_) => None,
                },
            ),
            final(self).next_used(direction) == old(self).next_used(direction),
            final(self).next_avail(direction) == if result matches Ok(Some(_)) {
                ring_successor(old(self).next_avail(direction))
            } else {
                old(self).next_avail(direction)
            },
            result matches Err(e) ==> e is Queue,
    {
        let taken = match direction {
            Direction::Inflate => next_chain(&mut self.inflate, &self.guest_mem),
            Direction::Deflate => next_chain(&mut self.deflate, &self.guest_mem),
        };
        match taken {
            Ok(Some(chain)) => {
                let head_index = chain_head(&chain);
                let buffers = chain_buffers(chain);
                self.note(
                    direction,
                    Ghost(
                        QueueStep::Taken {
                            head_index,
                            buffers: buffers@,
                            at: self.history().len(),
                        },
                    ),
                );
                Ok(Some((head_index, buffers)))
            },
            Ok(None) => {
                self.note(direction, Ghost(QueueStep::Empty));
                Ok(None)
            },
            Err(e) => Err(Error::from(e)),
        }
    }

    /// Hands a chain back to the driver: posts a used entry of length zero
    /// for the chain with the given head. Where the queue takes it, that is
    /// one step `Posted` with the number of page operations made so far,
    /// and the used position moves on by one; where it fails, no step is
    /// made.
    fn post_used(&mut self, direction: Direction, head_index: u16) -> (result: Result<(), Error>)
        ensures
            final(self).stepped(
                old(self),
                direction,
                match result {
                    Ok(()) => Some(
                        QueueStep::Posted { head_index, len: 0, upto: old(self).history().len() },
                    ),
                    Err(_) => None,
                },
            ),
            final(self).next_avail(direction) == old(self).next_avail(direction),
            result is Ok ==> final(self).next_used(direction) == ring_successor(
                old(self).next_used(direction),
            ),
            result matches Err(e) ==> e is Queue,
    {
        let done = match direction {
            Direction::Inflate => add_used(&mut self.inflate, &self.guest_mem, head_index, 0),
            Direction::Deflate => add_used(&mut self.deflate, &self.guest_mem, head_index, 0),
        };
        match done {
            Ok(()) => {
                self.note(
                    direction,
                    Ghost(QueueStep::Posted { head_index, len: 0, upto: self.history().len() }),
                );
                Ok(())
            },
            Err(e) => Err(Error::from(e)),
        }
    }

    /// Signals the driver that the queue of a direction has used entries:
    /// one step `Signalled` with the queue's index.
    fn signal_driver(&mut self, direction: Direction)
        ensures
            final(self).stepped(
                old(self),
                direction,
                Some(QueueStep::Signalled { index: queue_index(direction) }),
            ),
            final(self).next_avail(direction) == old(self).next_avail(direction),
            final(self).next_used(direction) == old(self).next_used(direction),
    {
        let index = queue_index_of(direction);
        self.driver_notify.signal_used_queue(index);
        self.note(direction, Ghost(QueueStep::Signalled { index }));
    }

    /// Writes one step into the record of a queue.
    fn note(&mut self, direction: Direction, Ghost(step): Ghost<QueueStep>)
        ensures
            final(self).stepped(old(self), direction, Some(step)),
            final(self).next_avail(direction) == old(self).next_avail(direction),
            final(self).next_used(direction) == old(self).next_used(direction),
    {
        proof {
            match direction {
                Direction::Inflate => {
                    self.inflate_steps@ = self.inflate_steps@.push(step);
                },
                Direction::Deflate => {
                    self.deflate_steps@ = self.deflate_steps@.push(step);
                },
            }
        }
    }

    /// Drains the queue of a direction. With the driver's notifications
    /// suppressed it takes every waiting chain in turn, walks it, hands it
    /// back with a used entry of length zero and signals the driver where
    /// the queue says so; then it asks for notifications again, and starts
    /// over where chains arrived in between. A chain that was taken is
    /// handed back once, after its page operations. It succeeds only after
    /// the queue has said that no chain is waiting.
    pub fn drain(&mut self, direction: Direction) -> (result: Result<(), Error>)
        requires
            old(self).wf(),
        ensures
            final(self).wf(),
            grown_by(old(self).history(), final(self).history(), direction),
            final(self).queue_untouched(old(self), opposite(direction)),
            drained(old(self), final(self), direction, result is Ok),
            protocol(
                old(self).steps(direction),
                final(self).steps(direction),
                direction,
                result is Ok,
            ),
            chains_walked(
                old(self).steps(direction).len() as int,
                final(self).steps(direction),
                final(self).history(),
            ),
            failed_as(
                result,
                old(self).steps(direction),
                final(self).steps(direction),
                DRAIN_LIMIT,
            ),
    {
        self.drain_within(direction, DRAIN_LIMIT)
    }

    /// Drains the queue of a direction as `drain` does, and gives up with
    /// `Error::DrainLimit` after `limit` steps, where asking for fewer
    /// notifications is one step and looking for the next chain is one.
    pub fn drain_within(&mut self, direction: Direction, limit: u64) -> (result: Result<(), Error>)
        requires
            old(self).wf(),
        ensures
            final(self).wf(),
            grown_by(old(self).history(), final(self).history(), direction),
            final(self).queue_untouched(old(self), opposite(direction)),
            drained(old(self), final(self), direction, result is Ok),
            protocol(
                old(self).steps(direction),
                final(self).steps(direction),
                direction,
                result is Ok,
            ),
            chains_walked(
                old(self).steps(direction).len() as int,
                final(self).steps(direction),
                final(self).history(),
            ),
            final(self).chains_taken(direction) - old(self).chains_taken(direction) <= limit,
            limit == 0 ==> (result matches Err(Error::DrainLimit)) && *final(self) == *old(self),
            failed_as(
                result,
                old(self).steps(direction),
                final(self).steps(direction),
                limit,
            ),
    {
        proof {
            lemma_ring_advance_successor(self.next_avail(direction), 0);
            lemma_ring_advance_successor(self.next_used(direction), 0);
            lemma_drain_begins(self.steps(direction), self.history(), direction);
        }
        if limit == 0 {
            return Err(Error::DrainLimit);
        }
        let ghost start = self.history();
        let ghost before = *self;
        let ghost base = self.steps(direction);
        let mut budget: u64 = limit;
        let mut finished = false;
        while !finished
            invariant
                start == old(self).history(),
                before == *old(self),
                base == before.steps(direction),
                self.wf(),
                grown_by(start, self.history(), direction),
                self.queue_untouched(&before, opposite(direction)),
                drained(&before, self, direction, true),
                running(base, self.steps(direction), direction),
                chains_walked(base.len() as int, self.steps(direction), self.history()),
                base.len() <= self.steps(direction).len(),
                finished ==> base.len() < self.steps(direction).len() && self.steps(
                    direction,
                ).last() == (QueueStep::Resumed { pending: false }),
                !finished && base.len() < self.steps(direction).len() ==> self.steps(
                    direction,
                ).last() == (QueueStep::Resumed { pending: true }),
                0 < limit,
                budget <= limit,
                self.chains_taken(direction) - before.chains_taken(direction) <= limit - budget,
                self.steps(direction).len() - base.len() >= limit - budget,
            decreases budget,
        {
            let ghost round_budget = budget;
            if budget == 0 {
                return Err(Error::DrainLimit);
            }
            budget = budget - 1;
            let ghost steps = self.steps(direction);
            match self.suppress_notifications(direction) {
                Ok(()) => {},
                Err(e) => {
                    return Err(e);
                },
            }
            proof {
                lemma_step_made(
                    base,
                    steps,
                    self.history(),
                    direction,
                    QueueStep::Suppressed,
                );
            }
            let mut more = true;
            while more
                invariant
                    start == old(self).history(),
                    before == *old(self),
                    base == before.steps(direction),
                    self.wf(),
                    grown_by(start, self.history(), direction),
                    self.queue_untouched(&before, opposite(direction)),
                    drained(&before, self, direction, true),
                    running(base, self.steps(direction), direction),
                    chains_walked(base.len() as int, self.steps(direction), self.history()),
                    base.len() < self.steps(direction).len(),
                    more ==> before_a_chain(self.steps(direction).last()),
                    !more ==> self.steps(direction).last() is Empty,
                    !finished,
                    budget < round_budget,
                    round_budget <= limit,
                    self.chains_taken(direction) - before.chains_taken(direction) <= limit
                        - budget,
                    self.steps(direction).len() - base.len() >= limit - budget,
                decreases budget,
            {
                if budget == 0 {
                    return Err(Error::DrainLimit);
                }
                budget = budget - 1;
                let ghost steps = self.steps(direction);
                let ghost taken_before = self.chains_taken(direction) - before.chains_taken(
                    direction,
                );
                let taken = match self.take_chain(direction) {
                    Ok(taken) => taken,
                    Err(e) => {
                        return Err(e);
                    },
                };
                match taken {
                    None => {
                        proof {
                            lemma_step_made(
                                base,
                                steps,
                                self.history(),
                                direction,
                                QueueStep::Empty,
                            );
                        }
                        more = false;
                    },
                    Some((head_index, buffers)) => {
                        let ghost earlier = self.history();
                        let ghost took = QueueStep::Taken {
                            head_index,
                            buffers: buffers@,
                            at: earlier.len(),
                        };
                        proof {
                            lemma_step_made(base, steps, earlier, direction, took);
                            lemma_ring_advance_successor(
                                before.next_avail(direction),
                                taken_before,
                            );
                        }
                        let walked = self.process_chain(&buffers, direction);
                        proof {
                            lemma_grown_by_twice(start, earlier, self.history(), direction);
                            lemma_walked_on(
                                base.len() as int,
                                self.steps(direction),
                                earlier,
                                self.history(),
                            );
                        }
                        match walked {
                            Ok(()) => {},
                            Err(e) => {
                                return Err(e);
                            },
                        }
                        let ghost steps = self.steps(direction);
                        let ghost posted_before = self.entries_posted(direction)
                            - before.entries_posted(direction);
                        match self.post_used(direction, head_index) {
                            Ok(()) => {},
                            Err(e) => {
                                return Err(e);
                            },
                        }
                        proof {
                            lemma_step_made(
                                base,
                                steps,
                                self.history(),
                                direction,
                                QueueStep::Posted {
                                    head_index,
                                    len: 0,
                                    upto: self.history().len(),
                                },
                            );
                            lemma_ring_advance_successor(
                                before.next_used(direction),
                                posted_before,
                            );
                        }
                        let ghost steps = self.steps(direction);
                        let wanted = match self.wants_interrupt(direction) {
                            Ok(wanted) => wanted,
                            Err(e) => {
                                return Err(e);
                            },
                        };
                        proof {
                            lemma_step_made(
                                base,
                                steps,
                                self.history(),
                                direction,
                                QueueStep::Asked { wanted },
                            );
                        }
                        if wanted {
                            let ghost steps = self.steps(direction);
                            self.signal_driver(direction);
                            proof {
                                lemma_step_made(
                                    base,
                                    steps,
                                    self.history(),
                                    direction,
                                    QueueStep::Signalled { index: queue_index(direction) },
                                );
                            }
                        }
                    },
                }
            }
            let ghost steps = self.steps(direction);
            let pending = match self.resume_notifications(direction) {
                Ok(pending) => pending,
                Err(e) => {
                    return Err(e);
                },
            };
            proof {
                lemma_step_made(
                    base,
                    steps,
                    self.history(),
                    direction,
                    QueueStep::Resumed { pending },
                );
            }
            if !pending {
                finished = true;
            }
        }
        Ok(())
    }

    /// Drains the inflate queue: reclaims the pages that the driver gave
    /// up. It succeeds only after the queue has said that no chain is
    /// waiting.
    pub fn process_inflate(&mut self) -> (result: Result<(), Error>)
        requires
            old(self).wf(),
        ensures
            final(self).wf(),
            grown_by(old(self).history(), final(self).history(), Direction::Inflate),
            final(self).queue_untouched(old(self), Direction::Deflate),
            drained(old(self), final(self), Direction::Inflate, result is Ok),
            protocol(
                old(self).steps(Direction::Inflate),
                final(self).steps(Direction::Inflate),
                Direction::Inflate,
                result is Ok,
            ),
            chains_walked(
                old(self).steps(Direction::Inflate).len() as int,
                final(self).steps(Direction::Inflate),
                final(self).history(),
            ),
            failed_as(
                result,
                old(self).steps(Direction::Inflate),
                final(self).steps(Direction::Inflate),
                DRAIN_LIMIT,
            ),
            final(self).page_count() >= old(self).page_count(),
    {
        let result = self.drain(Direction::Inflate);
        proof {
            lemma_count_grows(old(self).history(), self.history());
        }
        result
    }

    /// Drains the deflate queue: restores the pages that the driver takes
    /// back. It succeeds only after the queue has said that no chain is
    /// waiting.
    pub fn process_deflate(&mut self) -> (result: Result<(), Error>)
        requires
            old(self).wf(),
        ensures
            final(self).wf(),
            grown_by(old(self).history(), final(self).history(), Direction::Deflate),
            final(self).queue_untouched(old(self), Direction::Inflate),
            drained(old(self), final(self), Direction::Deflate, result is Ok),
            protocol(
                old(self).steps(Direction::Deflate),
                final(self).steps(Direction::Deflate),
                Direction::Deflate,
                result is Ok,
            ),
            chains_walked(
                old(self).steps(Direction::Deflate).len() as int,
                final(self).steps(Direction::Deflate),
                final(self).history(),
            ),
            failed_as(
                result,
                old(self).steps(Direction::Deflate),
                final(self).steps(Direction::Deflate),
                DRAIN_LIMIT,
            ),
            final(self).page_count() <= old(self).page_count(),
    {
        let result = self.drain(Direction::Deflate);
        proof {
            lemma_count_falls(old(self).history(), self.history());
        }
        result
    }
}

/// Says whether every entry of every buffer of a chain starts at an
/// address that fits in 64 bits.
pub fn chain_fits(buffers: &Vec<Buffer>) -> (fits: bool)
    ensures
        fits == chain_in_range(buffers@),
{
    let mut j: usize = 0;
    while j < buffers.len()
        invariant
            j <= buffers.len(),
            forall|k: int| 0 <= k < j ==> buffer_in_range(#[trigger] buffers@[k]),
        decreases buffers.len() - j,
    {
        let count = complete_entries(buffers[j].len);
        if count > 0 && checked_entry_address(buffers[j].addr, count - 1).is_none() {
            assert(!buffer_in_range(buffers@[j as int]));
            return false;
        }
        j += 1;
    }
    true
}

/// Computes the index by which the driver knows the queue of a direction.
pub fn queue_index_of(direction: Direction) -> (index: u16)
    ensures
        index == queue_index(direction),
{
    match direction {
        Direction::Inflate => INFLATE_QUEUE_INDEX,
        Direction::Deflate => DEFLATE_QUEUE_INDEX,
    }
}

/// A record that grew twice by operations of one direction grew by
/// operations of that direction.
pub proof fn lemma_grown_by_twice(
    first: Seq<PageOp>,
    second: Seq<PageOp>,
    third: Seq<PageOp>,
    direction: Direction,
)
    requires
        grown_by(first, second, direction),
        grown_by(second, third, direction),
    ensures
        grown_by(first, third, direction),
{
    assert forall|k: int| 0 <= k < first.len() implies third[k] == first[k] by {
        assert(third.subrange(0, second.len() as int)[k] == second[k]);
        assert(second.subrange(0, first.len() as int)[k] == first[k]);
    }
    assert forall|k: int| first.len() <= k < third.len() implies (#[trigger] third[k]).direction
        == direction by {
        if k < second.len() {
            assert(third.subrange(0, second.len() as int)[k] == second[k]);
        }
    }
}

/// Before its first step a draining is under way, with no chain to have
/// walked.
pub proof fn lemma_drain_begins(steps: Seq<QueueStep>, history: Seq<PageOp>, direction: Direction)
    ensures
        running(steps, steps, direction),
        chains_walked(steps.len() as int, steps, history),
{
    reveal(running);
    reveal(chains_walked);
    assert(steps.subrange(0, steps.len() as int) =~= steps);
}

/// One more step in a draining: where it may follow the last one, the
/// steps are still those of a draining, the counts of chains taken and
/// entries posted grow by what the step takes and posts, and every chain
/// that was taken and gone on from is still walked, where the chain that
/// the step hands back was.
pub proof fn lemma_step_made(
    before: Seq<QueueStep>,
    after: Seq<QueueStep>,
    history: Seq<PageOp>,
    direction: Direction,
    step: QueueStep,
)
    requires
        running(before, after, direction),
        chains_walked(before.len() as int, after, history),
        before.len() == after.len() ==> step is Suppressed,
        before.len() < after.len() ==> follows(after.last(), step, direction),
        before.len() < after.len() && after.last() is Taken ==> segment_read(
            history,
            after.last()->at,
            after.last()->buffers,
        ),
    ensures
        running(before, after.push(step), direction),
        chains_walked(before.len() as int, after.push(step), history),
        count_taken(after.push(step)) == count_taken(after) + taken_in(step),
        count_posted(after.push(step)) == count_posted(after) + posted_in(step),
        before.len() <= after.len(),
{
    reveal(running);
    reveal(chains_walked);
    let longer = after.push(step);
    lemma_counts_push(after, step);
    assert(longer.subrange(0, before.len() as int) =~= after.subrange(0, before.len() as int));
    assert forall|k: int| before.len() <= k < longer.len() - 1 implies follows(
        #[trigger] longer[k],
        longer[k + 1],
        direction,
    ) by {
        if k < after.len() - 1 {
            assert(longer[k] == after[k]);
            assert(longer[k + 1] == after[k + 1]);
        }
    }
    assert forall|k: int|
        before.len() <= k < longer.len() - 1 && (#[trigger] longer[k]) is Taken implies segment_read(
        history,
        longer[k]->at,
        longer[k]->buffers,
    ) by {
        assert(longer[k] == after[k]);
    }
}

/// Page operations that come later leave every walked chain walked.
pub proof fn lemma_walked_on(
    from: int,
    steps: Seq<QueueStep>,
    earlier: Seq<PageOp>,
    later: Seq<PageOp>,
)
    requires
        chains_walked(from, steps, earlier),
        earlier.len() <= later.len(),
        later.subrange(0, earlier.len() as int) =~= earlier,
    ensures
        chains_walked(from, steps, later),
{
    reveal(chains_walked);
    assert forall|k: int|
        from <= k < steps.len() - 1 && (#[trigger] steps[k]) is Taken implies segment_read(
        later,
        steps[k]->at,
        steps[k]->buffers,
    ) by {
        let at = steps[k]->at;
        let buffers = steps[k]->buffers;
        assert(segment_read(earlier, at, buffers));
        assert forall|j: int| 0 <= j < total_entries(buffers) implies read_from(
            #[trigger] later[at + j],
            chain_entry_address(buffers, j as nat),
        ) by {
            assert(later.subrange(0, earlier.len() as int)[at + j] == earlier[at + j]);
        }
    }
}

/// In a draining, notifications are asked for again only after the ring
/// was found empty: the step before each `Resumed` is `Empty`.
pub proof fn lemma_resumed_after_empty(
    before: Seq<QueueStep>,
    after: Seq<QueueStep>,
    direction: Direction,
    k: int,
)
    requires
        running(before, after, direction),
        before.len() <= k < after.len(),
        after[k] is Resumed,
    ensures
        before.len() < k,
        after[k - 1] is Empty,
{
    reveal(running);
    if k > before.len() {
        assert(follows(after[k - 1], after[k - 1 + 1], direction));
    }
}

/// In a draining, a chain that was handed back was walked first: the
/// step before each `Posted` is the `Taken` of the same chain, and the
/// history holds one operation for each entry of its buffers, read in the
/// chain's order, made between the two steps.
pub proof fn lemma_posted_after_walk(
    before: Seq<QueueStep>,
    after: Seq<QueueStep>,
    history: Seq<PageOp>,
    direction: Direction,
    k: int,
)
    requires
        running(before, after, direction),
        chains_walked(before.len() as int, after, history),
        before.len() <= k < after.len(),
        after[k] is Posted,
    ensures
        before.len() < k,
        after[k - 1] is Taken,
        after[k] == (QueueStep::Posted {
            head_index: after[k - 1]->Taken_head_index,
            len: 0,
            upto: after[k - 1]->at + total_entries(after[k - 1]->buffers),
        }),
        segment_read(history, after[k - 1]->at, after[k - 1]->buffers),
{
    reveal(running);
    reveal(chains_walked);
    if k > before.len() {
        assert(follows(after[k - 1], after[k - 1 + 1], direction));
    }
}

/// A draining that took no chain did nothing: no page operation was made,
/// the count of reclaimed pages is what it was, no used entry was posted,
/// and both ring positions are where they were.
pub proof fn lemma_idle_drain_changes_nothing<S: SignalUsedQueue, A: HostAdvisor>(
    before: &SimpleHandler<S, A>,
    after: &SimpleHandler<S, A>,
    direction: Direction,
    completed: bool,
)
    requires
        before.wf(),
        after.wf(),
        drained(before, after, direction, completed),
        after.chains_taken(direction) == before.chains_taken(direction),
    ensures
        after.history() == before.history(),
        after.page_count() == before.page_count(),
        after.entries_posted(direction) == before.entries_posted(direction),
        after.next_avail(direction) == before.next_avail(direction),
        after.next_used(direction) == before.next_used(direction),
{
    lemma_ring_advance_successor(before.next_avail(direction), 0);
    lemma_ring_advance_successor(before.next_used(direction), 0);
}

/// After a draining that completed, no chain that it took is left without
/// its used entry, and none has two: as many entries were posted as chains
/// taken.
pub proof fn lemma_completed_drain_hands_back_every_chain<S: SignalUsedQueue, A: HostAdvisor>(
    before: &SimpleHandler<S, A>,
    after: &SimpleHandler<S, A>,
    direction: Direction,
)
    requires
        drained(before, after, direction, true),
    ensures
        after.entries_posted(direction) - before.entries_posted(direction) == after.chains_taken(
            direction,
        ) - before.chains_taken(direction),
{
}

/// Operations of reclaiming alone never lower the count of reclaimed
/// pages.
pub proof fn lemma_count_grows(before: Seq<PageOp>, after: Seq<PageOp>)
    requires
        grown_by(before, after, Direction::Inflate),
    ensures
        count_after(0, after) >= count_after(0, before),
    decreases after.len(),
{
    if after.len() == before.len() {
        assert(after =~= after.subrange(0, before.len() as int));
    } else {
        assert(after.drop_last().subrange(0, before.len() as int) =~= after.subrange(
            0,
            before.len() as int,
        ));
        lemma_count_grows(before, after.drop_last());
    }
}

/// Operations of restoring alone never raise the count of reclaimed
/// pages.
pub proof fn lemma_count_falls(before: Seq<PageOp>, after: Seq<PageOp>)
    requires
        grown_by(before, after, Direction::Deflate),
    ensures
        count_after(0, after) <= count_after(0, before),
    decreases after.len(),
{
    if after.len() == before.len() {
        assert(after =~= after.subrange(0, before.len() as int));
    } else {
        assert(after.drop_last().subrange(0, before.len() as int) =~= after.subrange(
            0,
            before.len() as int,
        ));
        lemma_count_falls(before, after.drop_last());
    }
}

} // verus!
