//! The balloon device: its configuration register, its interrupt status and
//! its way from reset to activated.

use vstd::prelude::*;
use vstd::bytes::{
    lemma_auto_spec_u64_to_from_le_bytes, spec_u64_from_le_bytes, spec_u64_to_le_bytes,
    u64_from_le_bytes, u64_to_le_bytes,
};
use virtio_queue::Queue;
use vm_memory::GuestMemoryMmap;
use crate::ledger::{Direction, PageOp};
use crate::outside::{
    new_queue, queue_max_size, queue_next_avail, queue_next_used, share_memory, valid_max_size,
};
use crate::queue_handler::QueueHandler;
use crate::simple_handler::{HostAdvisor, SignalUsedQueue, SimpleHandler};

verus! {

/// The device type of a balloon in the virtio standard.
pub const BALLOON_DEVICE_ID: u32 = 5;

/// The feature bit of virtio version 1.
pub const VIRTIO_F_VERSION_1: u64 = 32;

/// The largest size that the device offers for a queue.
pub const QUEUE_MAX_SIZE: u16 = 256;

/// The interrupt status bit for used entries in a queue.
pub const VIRTIO_MMIO_INT_VRING: u8 = 1;

/// The interrupt status bit for a change of the device configuration.
pub const VIRTIO_MMIO_INT_CONFIG: u8 = 2;

/// Where the device configuration starts in the device's register map.
pub const CONFIG_SPACE_OFFSET: u64 = 256;

/// The size in bytes of the device configuration: the target size, as 64
/// bits, least significant byte first.
pub const CONFIG_SPACE_SIZE: usize = 8;

/// What the transport can refuse.
#[derive(Debug)]
pub enum TransportError {
    /// The device was activated before.
    AlreadyActivated,
    /// Fewer than two queues are left to the device.
    QueuesMissing,
}

/// What can go wrong in the life of the device.
#[derive(Debug)]
pub enum Error {
    Virtio(TransportError),
}

/// What a balloon device is made from.
pub struct BalloonArgs {
    pub guest_memory: GuestMemoryMmap<()>,
}

/// The balloon device.
pub struct Balloon {
    config_space: Vec<u8>,
    device_features: u64,
    interrupt_status: u8,
    activated: bool,
    queues: Vec<Queue>,
    guest_memory: GuestMemoryMmap<()>,
    config_interrupts: Ghost<nat>,
}

/// Whether an access of `len` bytes at `offset` lies inside the device
/// configuration.
pub open spec fn in_config_window(offset: u64, len: nat) -> bool {
    CONFIG_SPACE_OFFSET <= offset && offset - CONFIG_SPACE_OFFSET + len <= CONFIG_SPACE_SIZE
}

/// The device configuration after a write of `data` at `offset`: inside
/// the window the bytes take the place of those that were there; a write
/// that reaches outside changes nothing.
pub open spec fn config_after_write(config: Seq<u8>, offset: u64, data: Seq<u8>) -> Seq<u8> {
    if in_config_window(offset, data.len()) {
        let start = offset - CONFIG_SPACE_OFFSET;
        config.subrange(0, start) + data + config.subrange(
            start + data.len(),
            CONFIG_SPACE_SIZE as int,
        )
    } else {
        config
    }
}

/// What a read of `into.len()` bytes at `offset` leaves in the buffer `into`:
/// inside the window the bytes of the configuration; a read that reaches
/// outside leaves the buffer as it was.
pub open spec fn config_read(config: Seq<u8>, offset: u64, into: Seq<u8>) -> Seq<u8> {
    if in_config_window(offset, into.len()) {
        let start = offset - CONFIG_SPACE_OFFSET;
        config.subrange(start, start + into.len())
    } else {
        into
    }
}

impl Balloon {
    /// The bytes of the device configuration.
    pub closed spec fn config(&self) -> Seq<u8> {
        self.config_space@
    }

    /// The target size that the configuration holds.
    pub open spec fn target(&self) -> u64 {
        spec_u64_from_le_bytes(self.config())
    }

    /// The interrupt status bits that are raised.
    pub closed spec fn status(&self) -> u8 {
        self.interrupt_status
    }

    /// The features that the device offers.
    pub closed spec fn features(&self) -> u64 {
        self.device_features
    }

    /// Whether the device has left the reset state.
    pub closed spec fn is_activated(&self) -> bool {
        self.activated
    }

    /// The queues that the device still holds.
    pub closed spec fn held_queues(&self) -> Seq<Queue> {
        self.queues@
    }

    /// How many times the configuration interrupt was raised.
    pub closed spec fn interrupts_raised(&self) -> nat {
        self.config_interrupts@
    }

    /// A device as it is made: in the reset state, with a target size of
    /// zero, no interrupt raised and the feature of virtio version 1 on
    /// offer.
    pub open spec fn fresh(&self) -> bool {
        &&& self.wf()
        &&& !self.is_activated()
        &&& self.config() == Seq::new(CONFIG_SPACE_SIZE as nat, |i: int| 0u8)
        &&& self.status() == 0
        &&& self.features() == 0x1_0000_0000
        &&& self.interrupts_raised() == 0
    }

    /// The device configuration has its eight bytes.
    pub open spec fn wf(&self) -> bool {
        self.config().len() == CONFIG_SPACE_SIZE
    }

    /// Makes a balloon device over the given guest memory: in the reset
    /// state, with a target size of zero, no interrupt raised, two queues
    /// of `QUEUE_MAX_SIZE` slots that have taken and posted nothing, and
    /// the feature of virtio version 1 on offer.
    pub fn new(args: &BalloonArgs) -> (result: Result<Balloon, Error>)
        ensures
            result matches Ok(balloon) && {
                &&& balloon.fresh()
                &&& balloon.held_queues().len() == 2
                &&& forall|k: int|
                    0 <= k < 2 ==> queue_next_avail(#[trigger] balloon.held_queues()[k]) == 0
                        && queue_next_used(balloon.held_queues()[k]) == 0 && queue_max_size(
                        balloon.held_queues()[k],
                    ) == QUEUE_MAX_SIZE
            },
    {
        assert(valid_max_size(QUEUE_MAX_SIZE)) by {
            assert(256u16 & 255u16 == 0) by (bit_vector);
        }
        let inflate = match new_queue(QUEUE_MAX_SIZE) {
            Ok(queue) => queue,
            Err(_) => {
                return Err(Error::Virtio(TransportError::QueuesMissing));
            },
        };
        let deflate = match new_queue(QUEUE_MAX_SIZE) {
            Ok(queue) => queue,
            Err(_) => {
                return Err(Error::Virtio(TransportError::QueuesMissing));
            },
        };
        let mut queues: Vec<Queue> = Vec::new();
        queues.push(inflate);
        queues.push(deflate);
        Ok(Balloon::with_queues(args, queues))
    }

    /// Makes a balloon device as `new` does, with the queues that the
    /// transport hands over in place of two new ones: the first is the
    /// inflate queue, the second the deflate queue.
    pub fn with_queues(args: &BalloonArgs, queues: Vec<Queue>) -> (balloon: Balloon)
        ensures
            balloon.fresh(),
            balloon.held_queues() == queues@,
    {
        let mut config_space: Vec<u8> = Vec::new();
        let mut i: usize = 0;
        while i < CONFIG_SPACE_SIZE
            invariant
                i <= CONFIG_SPACE_SIZE,
                config_space@ == Seq::new(i as nat, |k: int| 0u8),
            decreases CONFIG_SPACE_SIZE - i,
        {
            config_space.push(0);
            i += 1;
        }
        assert(1u64 << 32u64 == 0x1_0000_0000u64) by (bit_vector);
        Balloon {
            config_space,
            device_features: 1u64 << VIRTIO_F_VERSION_1,
            interrupt_status: 0,
            activated: false,
            queues,
            guest_memory: share_memory(&args.guest_memory),
            config_interrupts: Ghost(0),
        }
    }

    /// The device type: that of a balloon.
    pub fn device_type(&self) -> (id: u32)
        ensures
            id == BALLOON_DEVICE_ID,
    {
        BALLOON_DEVICE_ID
    }

    /// The target size that the configuration holds.
    pub fn target_size(&self) -> (size: u64)
        requires
            self.wf(),
        ensures
            size == self.target(),
    {
        u64_from_le_bytes(self.config_space.as_slice())
    }

    /// The interrupt status bits that are raised.
    pub fn interrupt_status(&self) -> (status: u8)
        ensures
            status == self.status(),
    {
        self.interrupt_status
    }

    /// The features that the device offers.
    pub fn device_features(&self) -> (features: u64)
        ensures
            features == self.features(),
    {
        self.device_features
    }

    /// Whether the device has left the reset state.
    pub fn activated(&self) -> (activated: bool)
        ensures
            activated == self.is_activated(),
    {
        self.activated
    }

    /// Reads `data.len()` bytes of the register map at `offset` into
    /// `data`. Only the device configuration is served here: a read that
    /// reaches outside it leaves `data` as it was.
    pub fn read(&self, offset: u64, data: &mut Vec<u8>)
        requires
            self.wf(),
        ensures
            final(data)@ == config_read(self.config(), offset, old(data)@),
    {
        let len = data.len();
        if offset < CONFIG_SPACE_OFFSET || offset - CONFIG_SPACE_OFFSET > CONFIG_SPACE_SIZE as u64 {
            return ;
        }
        let start: usize = (offset - CONFIG_SPACE_OFFSET) as usize;
        if len > CONFIG_SPACE_SIZE - start {
            return ;
        }
        let mut i: usize = 0;
        while i < len
            invariant
                i <= len,
                len == data@.len(),
                len == old(data)@.len(),
                start + len <= CONFIG_SPACE_SIZE,
                self.config_space@.len() == CONFIG_SPACE_SIZE,
                forall|k: int| 0 <= k < i ==> data@[k] == self.config_space@[start + k],
            decreases len - i,
        {
            let byte = self.config_space[start + i];
            data.set(i, byte);
            i += 1;
        }
        assert(data@ =~= self.config_space@.subrange(start as int, start + len));
    }

    /// Writes `data` to the register map at `offset`. Only the device
    /// configuration is served here. A write inside it replaces the bytes
    /// it covers, raises the configuration interrupt bit and asks for one
    /// interrupt, which the result says; a write that reaches outside
    /// changes nothing and asks for none.
    pub fn write(&mut self, offset: u64, data: &[u8]) -> (interrupt: bool)
        requires
            old(self).wf(),
        ensures
            final(self).wf(),
            final(self).config() == config_after_write(old(self).config(), offset, data@),
            interrupt == in_config_window(offset, data@.len()),
            final(self).status() == if interrupt {
                old(self).status() | VIRTIO_MMIO_INT_CONFIG
            } else {
                old(self).status()
            },
            final(self).interrupts_raised() == old(self).interrupts_raised() + if interrupt {
                1nat
            } else {
                0nat
            },
            final(self).features() == old(self).features(),
            final(self).is_activated() == old(self).is_activated(),
            final(self).held_queues() == old(self).held_queues(),
    {
        let len = data.len();
        if offset < CONFIG_SPACE_OFFSET || offset - CONFIG_SPACE_OFFSET > CONFIG_SPACE_SIZE as u64 {
            return false;
        }
        let start: usize = (offset - CONFIG_SPACE_OFFSET) as usize;
        if len > CONFIG_SPACE_SIZE - start {
            return false;
        }
        let mut i: usize = 0;
        while i < len
            invariant
                i <= len,
                len == data@.len(),
                start + len <= CONFIG_SPACE_SIZE,
                self.config_space@.len() == CONFIG_SPACE_SIZE,
                old(self).config_space@.len() == CONFIG_SPACE_SIZE,
                forall|k: int| 0 <= k < i ==> self.config_space@[start + k] == data@[k],
                forall|k: int|
                    0 <= k < CONFIG_SPACE_SIZE && !(start <= k < start + i)
                        ==> self.config_space@[k] == old(self).config_space@[k],
                self.device_features == old(self).device_features,
                self.interrupt_status == old(self).interrupt_status,
                self.activated == old(self).activated,
                self.queues == old(self).queues,
                self.config_interrupts == old(self).config_interrupts,
            decreases len - i,
        {
            self.config_space.set(start + i, data[i]);
            i += 1;
        }
        assert(self.config_space@ =~= config_after_write(old(self).config_space@, offset, data@));
        self.interrupt_status = self.interrupt_status | VIRTIO_MMIO_INT_CONFIG;
        proof {
            self.config_interrupts@ = self.config_interrupts@ + 1;
        }
        true
    }

    /// Sets a new target size for the balloon: writes it to the device
    /// configuration and raises the configuration interrupt once.
    pub fn change_config(&mut self, size: u64)
        requires
            old(self).wf(),
        ensures
            final(self).wf(),
            final(self).config() == spec_u64_to_le_bytes(size),
            final(self).target() == size,
            final(self).status() == old(self).status() | VIRTIO_MMIO_INT_CONFIG,
            final(self).interrupts_raised() == old(self).interrupts_raised() + 1,
            final(self).features() == old(self).features(),
            final(self).is_activated() == old(self).is_activated(),
            final(self).held_queues() == old(self).held_queues(),
    {
        let bytes = u64_to_le_bytes(size);
        proof {
            lemma_auto_spec_u64_to_from_le_bytes();
        }
        let _ = self.write(CONFIG_SPACE_OFFSET, bytes.as_slice());
        assert(self.config() =~= bytes@);
    }

    /// Takes the device from reset to activated: its first two queues, the
    /// guest memory, the driver's notification sink and the host advisor
    /// become the handler of the two queues, and the device holds these
    /// queues no longer. It fails where the device was activated before or
    /// holds fewer than two queues, and changes nothing then.
    pub fn activate<S: SignalUsedQueue, A: HostAdvisor>(
        &mut self,
        driver_notify: S,
        advisor: A,
    ) -> (result: Result<QueueHandler<S, A>, Error>)
        requires
            old(self).wf(),
        ensures
            final(self).wf(),
            final(self).config() == old(self).config(),
            final(self).status() == old(self).status(),
            final(self).features() == old(self).features(),
            final(self).interrupts_raised() == old(self).interrupts_raised(),
            result is Ok <==> !old(self).is_activated() && old(self).held_queues().len() >= 2,
            result matches Err(e) ==> *final(self) == *old(self) && e == Error::Virtio(
                if old(self).is_activated() {
                    TransportError::AlreadyActivated
                } else {
                    TransportError::QueuesMissing
                },
            ),
            result matches Ok(handler) ==> {
                &&& final(self).is_activated()
                &&& final(self).held_queues() == old(self).held_queues().skip(2)
                &&& handler.inner.wf()
                &&& handler.inner.page_count() == 0
                &&& handler.inner.history() == Seq::<PageOp>::empty()
                &&& handler.inner.next_avail(Direction::Inflate) == queue_next_avail(
                    old(self).held_queues()[0],
                )
                &&& handler.inner.next_used(Direction::Inflate) == queue_next_used(
                    old(self).held_queues()[0],
                )
                &&& handler.inner.next_avail(Direction::Deflate) == queue_next_avail(
                    old(self).held_queues()[1],
                )
                &&& handler.inner.next_used(Direction::Deflate) == queue_next_used(
                    old(self).held_queues()[1],
                )
            },
    {
        if self.activated {
            return Err(Error::Virtio(TransportError::AlreadyActivated));
        }
        if self.queues.len() < 2 {
            return Err(Error::Virtio(TransportError::QueuesMissing));
        }
        let inflate = self.queues.remove(0);
        let deflate = self.queues.remove(0);
        assert(self.queues@ =~= old(self).queues@.skip(2));
        self.activated = true;
        let inner = SimpleHandler::new(
            driver_notify,
            advisor,
            inflate,
            deflate,
            share_memory(&self.guest_memory),
        );
        Ok(QueueHandler { inner })
    }

    /// Resets the device. The device does not go back to the reset state:
    /// nothing changes, and the call succeeds.
    pub fn reset(&mut self) -> (result: Result<(), Error>)
        ensures
            result is Ok,
            *final(self) == *old(self),
    {
        Ok(())
    }
}

/// A write of eight bytes at the start of the device configuration is what
/// a read of eight bytes there returns.
pub proof fn lemma_write_then_read(config: Seq<u8>, data: Seq<u8>, into: Seq<u8>)
    requires
        config.len() == CONFIG_SPACE_SIZE,
        data.len() == CONFIG_SPACE_SIZE,
        into.len() == CONFIG_SPACE_SIZE,
    ensures
        config_read(config_after_write(config, CONFIG_SPACE_OFFSET, data), CONFIG_SPACE_OFFSET, into)
            == data,
{
    let written = config_after_write(config, CONFIG_SPACE_OFFSET, data);
    assert(written =~= data);
    assert(written.subrange(0, CONFIG_SPACE_SIZE as int) =~= data);
}

} // verus!
