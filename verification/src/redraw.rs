//! The ordered-delivery lane for redraw notifications.
//!
//! Redraw batches must reach the handler strictly in arrival order, even
//! though delivery runs on a spawned drain task while the reading loop
//! keeps pushing. The queue below is that lane's whole state: the pending
//! batches, oldest first, and whether a drain task is running. `push`
//! reports whether the caller must start one — so there is never more
//! than one — and `next_batch` hands the drain task the oldest batch, or
//! tells it to go idle when nothing is left.
use vstd::prelude::*;

use crate::value::WireValue;

verus! {

/// The redraw lane's state.
pub struct RedrawQueue {
    is_active: bool,
    pending: Vec<Vec<WireValue>>,
}

impl RedrawQueue {
    /// Whether a drain task is currently running.
    pub closed spec fn active(self) -> bool {
        self.is_active
    }

    /// The pending batches, oldest first.
    pub closed spec fn batches(self) -> Seq<Vec<WireValue>> {
        self.pending@
    }

    pub fn new() -> (r: RedrawQueue)
        ensures
            !r.active(),
            r.batches() == Seq::<Vec<WireValue>>::empty(),
    {
        RedrawQueue { is_active: false, pending: Vec::new() }
    }

    /// Whether a drain task is currently running, decided executably.
    pub fn is_active(&self) -> (r: bool)
        ensures
            r == self.active(),
    {
        self.is_active
    }

    /// Enqueue one batch behind all earlier ones. Returns whether the
    /// caller must spawn the drain task: exactly when none was running,
    /// so at most one ever runs.
    pub fn push(&mut self, batch: Vec<WireValue>) -> (start_drain: bool)
        ensures
            final(self).batches() == old(self).batches().push(batch),
            final(self).active(),
            start_drain == !old(self).active(),
    {
        self.pending.push(batch);
        let start_drain = !self.is_active;
        self.is_active = true;
        start_drain
    }

    /// Hand the drain task its next batch: the oldest one, leaving the
    /// rest in order — or none, in which case the lane goes idle and the
    /// task must stop.
    pub fn next_batch(&mut self) -> (r: Option<Vec<WireValue>>)
        requires
            old(self).active(),
        ensures
            match r {
                Some(b) => {
                    &&& old(self).batches().len() > 0
                    &&& b == old(self).batches()[0]
                    &&& final(self).batches() == old(self).batches().drop_first()
                    &&& final(self).active()
                },
                None => {
                    &&& old(self).batches().len() == 0
                    &&& final(self).batches() == old(self).batches()
                    &&& !final(self).active()
                },
            },
    {
        if self.pending.len() == 0 {
            self.is_active = false;
            None
        } else {
            let b = self.pending.remove(0);
            proof {
                assert(self.pending@ =~= old(self).pending@.drop_first());
            }
            Some(b)
        }
    }
}

/// One `push` transition of the lane.
pub open spec fn push_step(
    pre: RedrawQueue,
    post: RedrawQueue,
    batch: Vec<WireValue>,
    started: bool,
) -> bool {
    &&& post.batches() == pre.batches().push(batch)
    &&& post.active()
    &&& started == !pre.active()
}

/// One `next_batch` transition of the lane.
pub open spec fn take_step(
    pre: RedrawQueue,
    post: RedrawQueue,
    taken: Option<Vec<WireValue>>,
) -> bool {
    &&& pre.active()
    &&& match taken {
        Some(b) => pre.batches().len() > 0 && b == pre.batches()[0] && post.batches()
            == pre.batches().drop_first() && post.active(),
        None => pre.batches().len() == 0 && post.batches() == pre.batches() && !post.active(),
    }
}

/// Redraw ordering: push a first batch to the idle lane (which starts
/// the one drain task), and while that batch is still being handled push
/// two more (which start nothing); the drain task then receives the
/// batches exactly in arrival order and only then goes idle.
pub proof fn lemma_redraw_ordering(
    q0: RedrawQueue,
    q1: RedrawQueue,
    q2: RedrawQueue,
    q3: RedrawQueue,
    q4: RedrawQueue,
    q5: RedrawQueue,
    q6: RedrawQueue,
    q7: RedrawQueue,
    b1: Vec<WireValue>,
    b2: Vec<WireValue>,
    b3: Vec<WireValue>,
    s1: bool,
    s2: bool,
    s3: bool,
    t1: Option<Vec<WireValue>>,
    t2: Option<Vec<WireValue>>,
    t3: Option<Vec<WireValue>>,
    t4: Option<Vec<WireValue>>,
)
    requires
        !q0.active(),
        q0.batches() == Seq::<Vec<WireValue>>::empty(),
        push_step(q0, q1, b1, s1),
        take_step(q1, q2, t1),
        push_step(q2, q3, b2, s2),
        push_step(q3, q4, b3, s3),
        take_step(q4, q5, t2),
        take_step(q5, q6, t3),
        take_step(q6, q7, t4),
    ensures
        s1 == true,
        s2 == false,
        s3 == false,
        t1 == Some(b1),
        t2 == Some(b2),
        t3 == Some(b3),
        t4 == None::<Vec<WireValue>>,
        !q7.active(),
{
    let empty = Seq::<Vec<WireValue>>::empty();
    assert(q1.batches() == empty.push(b1));
    assert(q1.batches()[0] == b1);
    assert(q1.batches().drop_first() =~= empty);
    assert(q2.batches() =~= empty);
    assert(q3.batches() =~= seq![b2]);
    assert(q4.batches() =~= seq![b2, b3]);
    assert(q4.batches()[0] == b2);
    assert(q4.batches().drop_first() =~= seq![b3]);
    assert(q5.batches() =~= seq![b3]);
    assert(q5.batches()[0] == b3);
    assert(q5.batches().drop_first() =~= empty);
    assert(q6.batches() =~= empty);
}

} // verus!
