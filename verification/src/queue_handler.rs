//! The bridge from the event loop to the queues: which doorbell stands for
//! which queue, and what a ready doorbell leads to.

use vstd::prelude::*;
use crate::ledger::Direction;
use crate::simple_handler::{
    chains_walked, drained, failed_as, grown_by, opposite, protocol, Error, HostAdvisor,
    SignalUsedQueue, SimpleHandler, DRAIN_LIMIT,
};

verus! {

/// The tag of the inflate queue's doorbell in the event loop.
pub const INFLATE_IOEVENT_DATA: u32 = 0;

/// The tag of the deflate queue's doorbell in the event loop.
pub const DEFLATE_IOEVENT_DATA: u32 = 1;

/// Why an event was not served. Each of these ends the registration of the
/// doorbell that the event came from, and of no other.
#[derive(Debug)]
pub enum DispatchError {
    /// The event carries a tag that stands for no queue.
    UnexpectedData(u32),
    /// The doorbell could not be read.
    Doorbell,
    /// Draining the queue failed.
    Handler(Error),
}

/// The queue that an event tag stands for.
pub open spec fn direction_of(data: u32) -> Option<Direction> {
    if data == INFLATE_IOEVENT_DATA {
        Some(Direction::Inflate)
    } else if data == DEFLATE_IOEVENT_DATA {
        Some(Direction::Deflate)
    } else {
        None
    }
}

/// The event tag of a queue.
pub open spec fn data_of(direction: Direction) -> u32 {
    match direction {
        Direction::Inflate => INFLATE_IOEVENT_DATA,
        Direction::Deflate => DEFLATE_IOEVENT_DATA,
    }
}

/// Finds the queue that an event tag stands for.
pub fn event_direction(data: u32) -> (direction: Option<Direction>)
    ensures
        direction == direction_of(data),
{
    if data == INFLATE_IOEVENT_DATA {
        Some(Direction::Inflate)
    } else if data == DEFLATE_IOEVENT_DATA {
        Some(Direction::Deflate)
    } else {
        None
    }
}

/// Gives the event tag of a queue. The tag leads back to the queue, and
/// the two queues have different tags.
pub fn event_data(direction: Direction) -> (data: u32)
    ensures
        data == data_of(direction),
        direction_of(data) == Some(direction),
{
    match direction {
        Direction::Inflate => INFLATE_IOEVENT_DATA,
        Direction::Deflate => DEFLATE_IOEVENT_DATA,
    }
}

/// What serving an event of a queue leaves behind: the queue was drained,
/// step by step as a draining goes, every chain that was handed back was
/// walked, the other queue is as it was, and a failure is that of the
/// draining.
pub open spec fn served<S: SignalUsedQueue, A: HostAdvisor>(
    before: &SimpleHandler<S, A>,
    after: &SimpleHandler<S, A>,
    direction: Direction,
    result: Result<(), DispatchError>,
) -> bool {
    &&& grown_by(before.history(), after.history(), direction)
    &&& after.queue_untouched(before, opposite(direction))
    &&& drained(before, after, direction, result is Ok)
    &&& protocol(before.steps(direction), after.steps(direction), direction, result is Ok)
    &&& chains_walked(before.steps(direction).len() as int, after.steps(direction), after.history())
    &&& match result {
        Ok(()) => true,
        Err(DispatchError::Handler(e)) => failed_as(
            Err(e),
            before.steps(direction),
            after.steps(direction),
            DRAIN_LIMIT,
        ),
        Err(_) => false,
    }
}

/// Joins the queue processing with the events of the two doorbells.
pub struct QueueHandler<S: SignalUsedQueue, A: HostAdvisor> {
    pub inner: SimpleHandler<S, A>,
}

impl<S: SignalUsedQueue, A: HostAdvisor> QueueHandler<S, A> {
    /// Lists what to register with the event loop: one readiness source
    /// for each queue's doorbell, with the queue's tag.
    pub fn init(&self) -> (sources: Vec<(Direction, u32)>)
        ensures
            sources@ == seq![
                (Direction::Inflate, INFLATE_IOEVENT_DATA),
                (Direction::Deflate, DEFLATE_IOEVENT_DATA),
            ],
    {
        let mut sources: Vec<(Direction, u32)> = Vec::new();
        sources.push((Direction::Inflate, INFLATE_IOEVENT_DATA));
        sources.push((Direction::Deflate, DEFLATE_IOEVENT_DATA));
        sources
    }

    /// Serves one event: `data` is the tag of the doorbell that became
    /// ready, `doorbell_read` says whether reading the doorbell succeeded.
    /// An unknown tag or a doorbell that was not read leaves the handler as
    /// it was; otherwise the tag's queue is drained.
    pub fn process(&mut self, data: u32, doorbell_read: bool) -> (result: Result<(), DispatchError>)
        requires
            old(self).inner.wf(),
        ensures
            final(self).inner.wf(),
            direction_of(data) is None ==> result == Err::<(), DispatchError>(
                DispatchError::UnexpectedData(data),
            ) && *final(self) == *old(self),
            direction_of(data) is Some && !doorbell_read ==> result == Err::<(), DispatchError>(
                DispatchError::Doorbell,
            ) && *final(self) == *old(self),
            direction_of(data) is Some && doorbell_read ==> served(
                &old(self).inner,
                &final(self).inner,
                direction_of(data)->0,
                result,
            ),
    {
        match event_direction(data) {
            None => Err(DispatchError::UnexpectedData(data)),
            Some(direction) => {
                if !doorbell_read {
                    Err(DispatchError::Doorbell)
                } else {
                    let drained = match direction {
                        Direction::Inflate => self.inner.process_inflate(),
                        Direction::Deflate => self.inner.process_deflate(),
                    };
                    match drained {
                        Ok(()) => Ok(()),
                        Err(e) => Err(DispatchError::Handler(e)),
                    }
                }
            },
        }
    }
}

} // verus!
