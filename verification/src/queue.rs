//! The bounded hand-off between the capture and render sides: a FIFO of
//! audio blocks with a fixed capacity. When the queue is full the oldest
//! block is dropped in favor of the new one — freshness is deliberately
//! prioritized over completeness in the real-time path.
use vstd::prelude::*;

verus! {

use crate::block::AudioBlock;

/// Default depth of the capture-to-render hand-off queue.
pub const DEFAULT_QUEUE_DEPTH: usize = 8;

/// A bounded FIFO of audio blocks. Its depth is fixed at construction;
/// it can never grow beyond that bound.
#[derive(Debug)]
pub struct BlockQueue {
    items: Vec<AudioBlock>,
    cap: usize,
}

impl BlockQueue {
    /// The queued blocks, oldest first.
    pub closed spec fn contents(self) -> Seq<AudioBlock> {
        self.items@
    }

    /// The fixed bound on the queue's depth.
    pub closed spec fn capacity_spec(self) -> int {
        self.cap as int
    }

    /// A well-formed queue: positive capacity, never exceeded.
    pub closed spec fn wf(self) -> bool {
        &&& 1 <= self.cap
        &&& self.items@.len() <= self.cap
    }

    /// What well-formedness guarantees publicly: the capacity is
    /// positive and the contents never exceed it.
    pub proof fn lemma_wf_bound(self)
        requires
            self.wf(),
        ensures
            1 <= self.capacity_spec(),
            self.contents().len() <= self.capacity_spec(),
    {
    }

    /// An empty queue with the given positive capacity.
    pub fn new(capacity: usize) -> (q: BlockQueue)
        requires
            1 <= capacity,
        ensures
            q.wf(),
            q.contents() == Seq::<AudioBlock>::empty(),
            q.capacity_spec() == capacity,
    {
        let items: Vec<AudioBlock> = Vec::new();
        proof {
            assert(items@ =~= Seq::<AudioBlock>::empty());
        }
        BlockQueue { items, cap: capacity }
    }

    /// Number of blocks currently queued.
    pub fn len(&self) -> (n: usize)
        ensures
            n == self.contents().len(),
    {
        self.items.len()
    }

    /// True when nothing is queued.
    pub fn is_empty(&self) -> (e: bool)
        ensures
            e == (self.contents().len() == 0),
    {
        self.items.len() == 0
    }

    /// The fixed capacity the queue was built with.
    pub fn capacity(&self) -> (c: usize)
        ensures
            c == self.capacity_spec(),
    {
        self.cap
    }

    /// Enqueues a block. If the queue is full, the oldest block is
    /// dropped to make room and returned; the new block always enters.
    pub fn push_drop_oldest(&mut self, b: AudioBlock) -> (dropped: Option<AudioBlock>)
        requires
            old(self).wf(),
        ensures
            final(self).wf(),
            final(self).capacity_spec() == old(self).capacity_spec(),
            old(self).contents().len() < old(self).capacity_spec() ==> final(self).contents()
                == old(self).contents().push(b) && dropped is None,
            old(self).contents().len() == old(self).capacity_spec() ==> final(self).contents()
                == old(self).contents().drop_first().push(b) && dropped == Some(
                old(self).contents()[0],
            ),
    {
        if self.items.len() == self.cap {
            let oldest = self.items.remove(0);
            self.items.push(b);
            proof {
                assert(self.items@ =~= old(self).items@.drop_first().push(b));
            }
            Some(oldest)
        } else {
            self.items.push(b);
            None
        }
    }

    /// Dequeues the oldest block, if any; never blocks.
    pub fn try_pop(&mut self) -> (r: Option<AudioBlock>)
        requires
            old(self).wf(),
        ensures
            final(self).wf(),
            final(self).capacity_spec() == old(self).capacity_spec(),
            old(self).contents().len() == 0 ==> r is None && *final(self) == *old(self),
            old(self).contents().len() > 0 ==> r == Some(old(self).contents()[0])
                && final(self).contents() == old(self).contents().drop_first(),
    {
        if self.items.len() == 0 {
            None
        } else {
            let b = self.items.remove(0);
            proof {
                assert(self.items@ =~= old(self).items@.drop_first());
            }
            Some(b)
        }
    }
}

} // verus!
