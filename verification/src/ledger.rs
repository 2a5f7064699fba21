//! The record of page operations and the count of reclaimed pages that
//! follows from it.

use vstd::prelude::*;
use crate::pfn::{le_u32, page_address, Buffer, BALLOON_PAGE_SIZE};

verus! {

/// Which way a queue moves pages: to the host or back to the guest.
#[derive(Clone, Copy, Debug, PartialEq, Eq, Structural)]
pub enum Direction {
    Inflate,
    Deflate,
}

/// How one page operation ended.
#[derive(Clone, Copy, Debug, PartialEq, Eq, Structural)]
pub enum Outcome {
    /// The host took the advice.
    Advised,
    /// The page's address lies in no mapped region of guest memory.
    Unmapped,
    /// The host refused the advice.
    Refused,
}

/// One page operation: what was asked for which page, what was handed to
/// the host, and how it ended. Where the frame number came from a
/// descriptor chain, `source` is the guest address that it was read from
/// and `bytes` are the four bytes read there.
pub struct PageOp {
    pub direction: Direction,
    pub pfn: u32,
    /// The guest address of the page.
    pub page: u64,
    /// Where the page lies in this process, if guest memory holds it.
    pub host: Option<usize>,
    /// The number of bytes that the advice is for.
    pub len: usize,
    pub outcome: Outcome,
    pub source: Option<u64>,
    pub bytes: Option<Seq<u8>>,
}

/// Whether an operation is made as every page operation is: the page is
/// that of the frame number, the advice is for one page, the operation
/// ends as `Unmapped` exactly where the page lies nowhere in this process,
/// and a frame number that was read is the number that its bytes write.
pub open spec fn well_made(op: PageOp) -> bool {
    &&& op.page == page_address(op.pfn)
    &&& op.len == BALLOON_PAGE_SIZE
    &&& op.host is None <==> op.outcome == Outcome::Unmapped
    &&& op.source is Some <==> op.bytes is Some
    &&& op.bytes matches Some(bytes) ==> bytes.len() == 4 && op.pfn == le_u32(bytes)
}

/// One step that a handler made on a queue, with what the queue answered.
pub enum QueueStep {
    /// The driver was asked for no further notifications.
    Suppressed,
    /// A chain with these buffers was taken from the available ring, when
    /// `at` page operations had been made.
    Taken { head_index: u16, buffers: Seq<Buffer>, at: nat },
    /// The available ring held no chain.
    Empty,
    /// A used entry was posted for the chain with this head, when `upto`
    /// page operations had been made.
    Posted { head_index: u16, len: u32, upto: nat },
    /// The queue was asked whether the driver wants an interrupt.
    Asked { wanted: bool },
    /// The driver was signalled for the queue with this index.
    Signalled { index: u16 },
    /// The driver was asked for notifications again; `pending` says
    /// whether chains were waiting by then.
    Resumed { pending: bool },
}

/// How many chains a step takes: one for `Taken`, none otherwise.
pub open spec fn taken_in(step: QueueStep) -> nat {
    if step is Taken {
        1
    } else {
        0
    }
}

/// How many used entries a step posts: one for `Posted`, none otherwise.
pub open spec fn posted_in(step: QueueStep) -> nat {
    if step is Posted {
        1
    } else {
        0
    }
}

/// The number of chains that the steps took.
pub open spec fn count_taken(steps: Seq<QueueStep>) -> nat
    decreases steps.len(),
{
    if steps.len() == 0 {
        0
    } else {
        count_taken(steps.drop_last()) + taken_in(steps.last())
    }
}

/// The number of used entries that the steps posted.
pub open spec fn count_posted(steps: Seq<QueueStep>) -> nat
    decreases steps.len(),
{
    if steps.len() == 0 {
        0
    } else {
        count_posted(steps.drop_last()) + posted_in(steps.last())
    }
}

/// One more step adds what it takes and posts to the counts.
pub proof fn lemma_counts_push(steps: Seq<QueueStep>, step: QueueStep)
    ensures
        count_taken(steps.push(step)) == count_taken(steps) + taken_in(step),
        count_posted(steps.push(step)) == count_posted(steps) + posted_in(step),
{
    assert(steps.push(step).drop_last() =~= steps);
}

/// The count of reclaimed pages after one more operation. Only an
/// operation that the host took changes it; it never leaves the range of
/// `u64`.
pub open spec fn count_step(count: u64, direction: Direction, outcome: Outcome) -> u64 {
    if outcome != Outcome::Advised {
        count
    } else if direction == Direction::Inflate {
        if count < u64::MAX {
            (count + 1) as u64
        } else {
            count
        }
    } else {
        if count > 0 {
            (count - 1) as u64
        } else {
            count
        }
    }
}

/// The count of reclaimed pages after the operations `ops`, in order,
/// starting from `count`.
pub open spec fn count_after(count: u64, ops: Seq<PageOp>) -> u64
    decreases ops.len(),
{
    if ops.len() == 0 {
        count
    } else {
        count_step(
            count_after(count, ops.drop_last()),
            ops.last().direction,
            ops.last().outcome,
        )
    }
}

/// Computes the count of reclaimed pages after one more operation.
pub fn apply_outcome(count: u64, direction: Direction, outcome: Outcome) -> (next: u64)
    ensures
        next == count_step(count, direction, outcome),
{
    match outcome {
        Outcome::Advised => match direction {
            Direction::Inflate => if count < u64::MAX {
                count + 1
            } else {
                count
            },
            Direction::Deflate => if count > 0 {
                count - 1
            } else {
                count
            },
        },
        _ => count,
    }
}

/// One more operation at the end of a record changes the count by that
/// operation's step.
pub proof fn lemma_count_after_push(count: u64, ops: Seq<PageOp>, op: PageOp)
    ensures
        count_after(count, ops.push(op)) == count_step(
            count_after(count, ops),
            op.direction,
            op.outcome,
        ),
{
    assert(ops.push(op).drop_last() =~= ops);
}

/// Reclaiming a page and then restoring it, both taken by the host, leaves
/// the count where it was, unless the count had no room left to grow.
pub proof fn lemma_reclaim_then_restore(count: u64, reclaimed: PageOp, restored: PageOp)
    requires
        count < u64::MAX,
        reclaimed.direction == Direction::Inflate,
        reclaimed.outcome == Outcome::Advised,
        restored.direction == Direction::Deflate,
        restored.outcome == Outcome::Advised,
    ensures
        count_after(count, seq![reclaimed, restored]) == count,
        count_after(count, seq![reclaimed]) == count + 1,
{
    let empty = Seq::<PageOp>::empty();
    assert(seq![reclaimed] =~= empty.push(reclaimed));
    assert(seq![reclaimed, restored] =~= empty.push(reclaimed).push(restored));
    lemma_count_after_push(count, empty, reclaimed);
    lemma_count_after_push(count, empty.push(reclaimed), restored);
}

} // verus!
