//! What this library takes on trust from `virtio-queue` and `vm-memory`:
//! the types it holds and the calls it makes, each with the contract that
//! the verified code relies on.

use vstd::prelude::*;
use virtio_queue::{DescriptorChain, Error as QueueError, Queue, QueueOwnedT, QueueT};
use vm_memory::{Bytes, GuestAddress, GuestMemoryBackend, GuestMemoryMmap};
use crate::pfn::Buffer;

verus! {

/// `virtio_queue::Queue`, the device's side of one split virtqueue.
#[verifier::external_type_specification]
#[verifier::external_body]
pub struct ExQueue(virtio_queue::Queue);

/// The error type of `virtio-queue`.
#[verifier::external_type_specification]
#[verifier::external_body]
pub struct ExQueueError(QueueError);

/// `virtio_queue::DescriptorChain`, one request of the driver.
#[verifier::external_type_specification]
#[verifier::external_body]
#[verifier::reject_recursive_types(M)]
pub struct ExDescriptorChain<M>(virtio_queue::DescriptorChain<M>);

/// `vm_memory::GuestRegionCollection`, of which `GuestMemoryMmap` is an
/// instance.
#[verifier::external_type_specification]
#[verifier::external_body]
#[verifier::reject_recursive_types(R)]
pub struct ExGuestRegionCollection<R>(vm_memory::GuestRegionCollection<R>);

/// `vm_memory::GuestRegionMmap`, one mapped region of guest memory.
#[verifier::external_type_specification]
#[verifier::external_body]
#[verifier::reject_recursive_types(B)]
pub struct ExGuestRegionMmap<B>(vm_memory::GuestRegionMmap<B>);

/// `vm_memory::GuestMemoryError`.
#[verifier::external_type_specification]
#[verifier::external_body]
pub struct ExGuestMemoryError(vm_memory::GuestMemoryError);

/// What `QueueT::next_avail` returns for the queue: the position in the
/// available ring of the next chain to take.
pub uninterp spec fn queue_next_avail(queue: Queue) -> u16;

/// What `QueueT::next_used` returns for the queue: the position in the used
/// ring of the next entry to post.
pub uninterp spec fn queue_next_used(queue: Queue) -> u16;

/// What `QueueT::max_size` returns for the queue: the largest size that
/// the device offers for it, which is the size it was made with.
pub uninterp spec fn queue_max_size(queue: Queue) -> u16;

/// The ring position after `index`; positions wrap at 16 bits.
pub open spec fn ring_successor(index: u16) -> u16 {
    if index == u16::MAX {
        0
    } else {
        (index + 1) as u16
    }
}

/// The ring position that lies `steps` positions after `from`.
#[verifier::opaque]
pub open spec fn ring_advance(from: u16, steps: int) -> u16 {
    ((from + steps) % 0x1_0000) as u16
}

/// The position after `ring_advance(from, steps)` is one step further on.
pub proof fn lemma_ring_advance_successor(from: u16, steps: int)
    requires
        steps >= 0,
    ensures
        ring_successor(ring_advance(from, steps)) == ring_advance(from, steps + 1),
        ring_advance(from, 0) == from,
{
    reveal(ring_advance);
}

/// The sizes that `Queue::new` accepts: a power of two up to 32768.
pub open spec fn valid_max_size(max_size: u16) -> bool {
    0 < max_size <= 32768 && max_size & ((max_size - 1) as u16) == 0
}

/// `QueueT::new`: makes a queue of the given maximum size, which has taken
/// and posted nothing yet. It refuses a size that is zero, over 32768 or no
/// power of two, and no other.
#[verifier::external_body]
pub(crate) fn new_queue(max_size: u16) -> (made: Result<Queue, QueueError>)
    ensures
        made is Ok <==> valid_max_size(max_size),
        made matches Ok(queue) ==> queue_next_avail(queue) == 0 && queue_next_used(queue) == 0
            && queue_max_size(queue) == max_size,
{
    Queue::new(max_size)
}

/// `QueueT::disable_notification`: asks the driver for no further
/// notifications. It moves neither ring position.
#[verifier::external_body]
pub(crate) fn disable_notification(queue: &mut Queue, mem: &GuestMemoryMmap<()>) -> (done: Result<
    (),
    QueueError,
>)
    ensures
        queue_next_avail(*final(queue)) == queue_next_avail(*old(queue)),
        queue_next_used(*final(queue)) == queue_next_used(*old(queue)),
{
    queue.disable_notification(mem)
}

/// `QueueT::enable_notification`: asks the driver for notifications again
/// and says whether chains are waiting. It moves neither ring position.
#[verifier::external_body]
pub(crate) fn enable_notification(queue: &mut Queue, mem: &GuestMemoryMmap<()>) -> (pending: Result<
    bool,
    QueueError,
>)
    ensures
        queue_next_avail(*final(queue)) == queue_next_avail(*old(queue)),
        queue_next_used(*final(queue)) == queue_next_used(*old(queue)),
{
    queue.enable_notification(mem)
}

/// `QueueT::needs_notification`: says whether the driver wants an interrupt
/// for the entries posted so far. It moves neither ring position.
#[verifier::external_body]
pub(crate) fn needs_notification(queue: &mut Queue, mem: &GuestMemoryMmap<()>) -> (wanted: Result<
    bool,
    QueueError,
>)
    ensures
        queue_next_avail(*final(queue)) == queue_next_avail(*old(queue)),
        queue_next_used(*final(queue)) == queue_next_used(*old(queue)),
{
    queue.needs_notification(mem)
}

/// `QueueT::add_used`: posts one entry to the used ring. Where it succeeds
/// the used position has moved on by one; the available position stays in
/// any case.
#[verifier::external_body]
pub(crate) fn add_used(queue: &mut Queue, mem: &GuestMemoryMmap<()>, head_index: u16, len: u32) -> (done:
    Result<(), QueueError>)
    ensures
        queue_next_avail(*final(queue)) == queue_next_avail(*old(queue)),
        done is Ok ==> queue_next_used(*final(queue)) == ring_successor(
            queue_next_used(*old(queue)),
        ),
{
    queue.add_used(mem, head_index, len)
}

/// `QueueOwnedT::iter` and the first `next` of the iterator it gives: takes
/// the next chain from the available ring, if there is one. The available
/// position moves on by one where a chain comes back and stays otherwise;
/// the used position stays in any case.
#[verifier::external_body]
pub(crate) fn next_chain<'a>(queue: &mut Queue, mem: &'a GuestMemoryMmap<()>) -> (taken: Result<
    Option<DescriptorChain<&'a GuestMemoryMmap<()>>>,
    QueueError,
>)
    ensures
        queue_next_used(*final(queue)) == queue_next_used(*old(queue)),
        taken matches Ok(Some(_)) ==> queue_next_avail(*final(queue)) == ring_successor(
            queue_next_avail(*old(queue)),
        ),
        !(taken matches Ok(Some(_))) ==> queue_next_avail(*final(queue)) == queue_next_avail(
            *old(queue),
        ),
{
    Ok(queue.iter(mem)?.next())
}

/// `DescriptorChain::head_index`: the index of the chain's first
/// descriptor, by which the chain is handed back.
#[verifier::external_body]
pub(crate) fn chain_head(chain: &DescriptorChain<&GuestMemoryMmap<()>>) -> (head_index: u16) {
    chain.head_index()
}

/// The `Iterator` of `DescriptorChain`, to its end: the chain's buffers in
/// the order of the chain, each as its address and length.
#[verifier::external_body]
pub(crate) fn chain_buffers(chain: DescriptorChain<&GuestMemoryMmap<()>>) -> (buffers: Vec<
    Buffer,
>) {
    chain.map(|desc| Buffer { addr: desc.addr().0, len: desc.len() }).collect()
}

/// `Bytes::read_slice` on guest memory, for the four bytes at `addr`.
#[verifier::external_body]
pub(crate) fn read_entry(mem: &GuestMemoryMmap<()>, addr: u64) -> (read: Result<
    [u8; 4],
    vm_memory::GuestMemoryError,
>) {
    let mut bytes = [0u8; 4];
    mem.read_slice(&mut bytes, GuestAddress(addr)).map(|_| bytes)
}

/// `GuestMemoryBackend::get_host_address`: where in this process the guest
/// address is mapped, or `None` where the call fails, as it does for an
/// address in no region. Nothing is promised of the address.
#[verifier::external_body]
pub(crate) fn host_address(mem: &GuestMemoryMmap<()>, addr: u64) -> (mapped: Option<usize>) {
    mem.get_host_address(GuestAddress(addr)).ok().map(|host| host as usize)
}

/// `Clone::clone` of `GuestMemoryMmap`: another handle to the same regions.
#[verifier::external_body]
pub(crate) fn share_memory(mem: &GuestMemoryMmap<()>) -> (shared: GuestMemoryMmap<()>) {
    mem.clone()
}

} // verus!
