//! The request multiplexer's state: the message-id counter, the
//! pending-request table, and the routing rule the reading loop applies to
//! every inbound message.
//!
//! The counter and the table are the session's shared state; an
//! application holds each behind one exclusive lock and drives the
//! transport around them. The contracts here pin down everything the
//! multiplexer relies on: ids are never handed out twice, a registered
//! slot is removed exactly once and only by its own id, and teardown
//! surrenders every waiting slot.
use vstd::prelude::*;

use crate::error::LoopError;
use crate::model::{RpcMessage, RpcMsg};
use crate::value::{models, WireVal, WireValue};

verus! {

/// The monotonic message-id counter.
///
/// The ghost `allocated` set records every id ever handed out, so the
/// contract of `fresh` can state uniqueness over the whole lifetime.
pub struct MsgidCounter {
    next: u64,
    allocated: Ghost<Set<u64>>,
}

impl MsgidCounter {
    /// Every id handed out so far lies below the counter.
    pub closed spec fn wf(self) -> bool {
        forall|id: u64| self.allocated@.contains(id) ==> id < self.next
    }

    /// The ids handed out so far.
    pub closed spec fn allocated_ids(self) -> Set<u64> {
        self.allocated@
    }

    /// The id the next call of `fresh` returns.
    pub closed spec fn next_id(self) -> u64 {
        self.next
    }

    pub fn new() -> (r: MsgidCounter)
        ensures
            r.wf(),
            r.allocated_ids() == Set::<u64>::empty(),
            r.next_id() == 0,
    {
        MsgidCounter { next: 0, allocated: Ghost(Set::empty()) }
    }

    /// The id the next call of `fresh` will return; `u64::MAX` means the
    /// id space is exhausted and `fresh` must not be called again.
    pub fn next_value(&self) -> (r: u64)
        ensures
            r == self.next_id(),
    {
        self.next
    }

    /// Hand out the next id: never one handed out before.
    pub fn fresh(&mut self) -> (id: u64)
        requires
            old(self).wf(),
            old(self).next_id() < u64::MAX,
        ensures
            final(self).wf(),
            id == old(self).next_id(),
            !old(self).allocated_ids().contains(id),
            final(self).allocated_ids() == old(self).allocated_ids().insert(id),
            final(self).next_id() == old(self).next_id() + 1,
    {
        let id = self.next;
        self.next = self.next + 1;
        proof {
            self.allocated@ = self.allocated@.insert(id);
        }
        id
    }
}

/// One step of the counter: `post` is `pre` after handing out `id`.
pub open spec fn allocates(pre: MsgidCounter, post: MsgidCounter, id: u64) -> bool {
    &&& pre.wf()
    &&& post.wf()
    &&& !pre.allocated_ids().contains(id)
    &&& post.allocated_ids() == pre.allocated_ids().insert(id)
}

/// A run of the counter: from `s0`, hand out the ids of `ids` in order,
/// ending in `s1`.
pub open spec fn counter_run(s0: MsgidCounter, ids: Seq<u64>, s1: MsgidCounter) -> bool
    decreases ids.len(),
{
    if ids.len() == 0 {
        s0 == s1
    } else {
        exists|mid: MsgidCounter|
            #[trigger] allocates(s0, mid, ids[0]) && counter_run(mid, ids.drop_first(), s1)
    }
}

/// Msgid uniqueness: however many calls draw ids from one counter, the
/// ids are pairwise distinct, and none repeats an id handed out before
/// the run.
pub proof fn lemma_msgids_distinct(s0: MsgidCounter, ids: Seq<u64>, s1: MsgidCounter)
    requires
        counter_run(s0, ids, s1),
    ensures
        forall|i: int| 0 <= i < ids.len() ==> !s0.allocated_ids().contains(#[trigger] ids[i]),
        forall|i: int, j: int| 0 <= i < j < ids.len() ==> ids[i] != ids[j],
    decreases ids.len(),
{
    if ids.len() > 0 {
        let mid = choose|mid: MsgidCounter|
            #[trigger] allocates(s0, mid, ids[0]) && counter_run(mid, ids.drop_first(), s1);
        lemma_msgids_distinct(mid, ids.drop_first(), s1);
        let rest = ids.drop_first();
        assert forall|i: int| 0 <= i < ids.len() implies !s0.allocated_ids().contains(
            #[trigger] ids[i],
        ) by {
            if i > 0 {
                assert(rest[i - 1] == ids[i]);
                assert(!mid.allocated_ids().contains(rest[i - 1]));
            }
        }
        assert forall|i: int, j: int| 0 <= i < j < ids.len() implies ids[i] != ids[j] by {
            if i == 0 {
                assert(rest[j - 1] == ids[j]);
                assert(!mid.allocated_ids().contains(rest[j - 1]));
                assert(mid.allocated_ids().contains(ids[0]));
            } else {
                assert(rest[i - 1] == ids[i] && rest[j - 1] == ids[j]);
            }
        }
    }
}

/// The pending-request table: one completion slot per outstanding call,
/// keyed by msgid. A scan over a short vector, as the request count is
/// typically tiny.
pub struct PendingTable<T> {
    entries: Vec<(u64, T)>,
}

impl<T> PendingTable<T> {
    /// No msgid occurs twice.
    pub closed spec fn wf(self) -> bool {
        forall|i: int, j: int|
            0 <= i < j < self.entries@.len() ==> (#[trigger] self.entries@[i]).0 != (
            #[trigger] self.entries@[j]).0
    }

    /// The registered entries, in registration order.
    pub closed spec fn entries_seq(self) -> Seq<(u64, T)> {
        self.entries@
    }

    /// Whether a call with this msgid is waiting.
    pub closed spec fn contains_id(self, id: u64) -> bool {
        exists|i: int| 0 <= i < self.entries@.len() && (#[trigger] self.entries@[i]).0 == id
    }

    /// The slot registered under this msgid.
    pub closed spec fn slot_for(self, id: u64) -> T {
        let i = choose|i: int| 0 <= i < self.entries@.len() && (#[trigger] self.entries@[i]).0
            == id;
        self.entries@[i].1
    }

    pub fn new() -> (r: PendingTable<T>)
        ensures
            r.wf(),
            r.entries_seq() == Seq::<(u64, T)>::empty(),
    {
        PendingTable { entries: Vec::new() }
    }

    pub fn len(&self) -> (r: usize)
        ensures
            r == self.entries_seq().len(),
    {
        self.entries.len()
    }

    /// Whether a call with this msgid is waiting, decided executably.
    pub fn contains(&self, id: u64) -> (r: bool)
        ensures
            r == self.contains_id(id),
    {
        let mut i: usize = 0;
        while i < self.entries.len()
            invariant
                i <= self.entries@.len(),
                forall|j: int| 0 <= j < i ==> (#[trigger] self.entries@[j]).0 != id,
            decreases self.entries@.len() - i,
        {
            if self.entries[i].0 == id {
                return true;
            }
            i = i + 1;
        }
        false
    }

    /// Register a completion slot under a fresh msgid.
    pub fn register(&mut self, id: u64, slot: T)
        requires
            old(self).wf(),
            !old(self).contains_id(id),
        ensures
            final(self).wf(),
            final(self).entries_seq() == old(self).entries_seq().push((id, slot)),
            final(self).contains_id(id),
            final(self).slot_for(id) == slot,
            forall|x: u64|
                x != id ==> final(self).contains_id(x) == old(self).contains_id(x),
            forall|x: u64|
                x != id && old(self).contains_id(x) ==> final(self).slot_for(x) == old(
                    self,
                ).slot_for(x),
    {
        self.entries.push((id, slot));
        proof {
            let pre = old(self).entries@;
            let post = self.entries@;
            assert(post[pre.len() as int] == (id, slot));
            assert forall|x: u64| x != id implies self.contains_id(x) == old(self).contains_id(
                x,
            ) by {
                if old(self).contains_id(x) {
                    let i = choose|i: int| 0 <= i < pre.len() && (#[trigger] pre[i]).0 == x;
                    assert(post[i].0 == x);
                } else if self.contains_id(x) {
                    let i = choose|i: int| 0 <= i < post.len() && (#[trigger] post[i]).0 == x;
                    assert(i < pre.len() && pre[i].0 == x);
                }
            }
            assert forall|x: u64| x != id && old(self).contains_id(x) implies self.slot_for(x)
                == old(self).slot_for(x) by {
                let i = choose|i: int| 0 <= i < post.len() && (#[trigger] post[i]).0 == x;
                let j = choose|j: int| 0 <= j < pre.len() && (#[trigger] pre[j]).0 == x;
                assert(post[j].0 == x);
                assert(i == j);
            }
        }
    }

    /// Remove and return the slot waiting under `msgid`; its absence is a
    /// protocol violation by the peer, reported as `MsgidNotFound`.
    pub fn find_sender(&mut self, msgid: u64) -> (r: Result<T, LoopError>)
        requires
            old(self).wf(),
        ensures
            final(self).wf(),
            match r {
                Ok(slot) => {
                    &&& old(self).contains_id(msgid)
                    &&& slot == old(self).slot_for(msgid)
                    &&& !final(self).contains_id(msgid)
                    &&& final(self).entries_seq().len() == old(self).entries_seq().len() - 1
                    &&& forall|x: u64|
                        x != msgid ==> final(self).contains_id(x) == old(self).contains_id(x)
                    &&& forall|x: u64|
                        x != msgid && old(self).contains_id(x) ==> final(self).slot_for(x) == old(
                            self,
                        ).slot_for(x)
                },
                Err(e) => {
                    &&& !old(self).contains_id(msgid)
                    &&& e == LoopError::MsgidNotFound(msgid)
                    &&& final(self).entries_seq() == old(self).entries_seq()
                },
            },
    {
        let ghost pre = self.entries@;
        let mut i: usize = 0;
        while i < self.entries.len()
            invariant
                self.entries@ == pre,
                old(self).wf(),
                pre == old(self).entries@,
                i <= pre.len(),
                forall|j: int| 0 <= j < i ==> (#[trigger] pre[j]).0 != msgid,
            decreases pre.len() - i,
        {
            if self.entries[i].0 == msgid {
                let entry = self.entries.remove(i);
                proof {
                    let post = self.entries@;
                    assert(post =~= pre.subrange(0, i as int) + pre.subrange(
                        i + 1,
                        pre.len() as int,
                    ));
                    assert forall|a: int, b: int|
                        0 <= a < b < post.len() implies (#[trigger] post[a]).0 != (
                    #[trigger] post[b]).0 by {
                        let a0: int = if a < i { a } else { a + 1 };
                        let b0: int = if b < i { b } else { b + 1 };
                        assert(post[a] == pre[a0] && post[b] == pre[b0]);
                    }
                    assert(old(self).slot_for(msgid) == pre[i as int].1) by {
                        let j = choose|j: int| 0 <= j < pre.len() && (#[trigger] pre[j]).0
                            == msgid;
                        assert(j == i);
                    }
                    assert(!self.contains_id(msgid)) by {
                        if self.contains_id(msgid) {
                            let j = choose|j: int| 0 <= j < post.len() && (#[trigger] post[j]).0
                                == msgid;
                            let j0: int = if j < i { j } else { j + 1 };
                            assert(pre[j0].0 == msgid);
                        }
                    }
                    assert forall|x: u64| x != msgid implies self.contains_id(x) == old(
                        self,
                    ).contains_id(x) by {
                        if old(self).contains_id(x) {
                            let j = choose|j: int| 0 <= j < pre.len() && (#[trigger] pre[j]).0
                                == x;
                            let j1: int = if j < i { j } else { j - 1 };
                            assert(post[j1].0 == x);
                        } else if self.contains_id(x) {
                            let j = choose|j: int| 0 <= j < post.len() && (#[trigger] post[j]).0
                                == x;
                            let j0: int = if j < i { j } else { j + 1 };
                            assert(pre[j0].0 == x);
                        }
                    }
                    assert forall|x: u64| x != msgid && old(self).contains_id(x) implies
                        self.slot_for(x) == old(self).slot_for(x) by {
                        let j = choose|j: int| 0 <= j < post.len() && (#[trigger] post[j]).0
                            == x;
                        let k = choose|k: int| 0 <= k < pre.len() && (#[trigger] pre[k]).0 == x;
                        let j0: int = if j < i { j } else { j + 1 };
                        assert(pre[j0].0 == x);
                        assert(j0 == k);
                    }
                }
                return Ok(entry.1);
            }
            i = i + 1;
        }
        Err(LoopError::MsgidNotFound(msgid))
    }

    /// Surrender every waiting slot, leaving the table empty: the
    /// teardown path, which hands one shared fatal error to each of them.
    pub fn drain(&mut self) -> (r: Vec<(u64, T)>)
        ensures
            r@ == old(self).entries_seq(),
            final(self).entries_seq() == Seq::<(u64, T)>::empty(),
            final(self).wf(),
    {
        let mut out: Vec<(u64, T)> = Vec::new();
        core::mem::swap(&mut out, &mut self.entries);
        out
    }
}

/// Where the reading loop sends one inbound message.
pub enum Routing {
    /// A response: complete the pending call with the peer's own
    /// success-or-error split.
    Response { msgid: u64, response: Result<WireValue, WireValue> },
    /// An inbound request: run the handler, then write back a response
    /// frame under this msgid.
    Request { msgid: u64, method: Vec<u8>, params: Vec<WireValue> },
    /// A batch for the ordered redraw lane.
    Redraw { params: Vec<WireValue> },
    /// Any other notification: handled independently, in no fixed order.
    Notify { method: Vec<u8>, params: Vec<WireValue> },
}

/// The name of the one notification stream with ordered delivery.
pub open spec fn redraw_name() -> Seq<u8> {
    seq![0x72u8, 0x65u8, 0x64u8, 0x72u8, 0x61u8, 0x77u8]
}

/// Whether `m` spells that name.
pub fn is_redraw(m: &Vec<u8>) -> (r: bool)
    ensures
        r == (m@ == redraw_name()),
{
    if m.len() != 6 {
        proof {
            assert(m@ != redraw_name());
        }
        return false;
    }
    let r = m[0] == 0x72 && m[1] == 0x65 && m[2] == 0x64 && m[3] == 0x72 && m[4] == 0x61 && m[5]
        == 0x77;
    proof {
        if r {
            assert(m@ =~= redraw_name());
        }
    }
    r
}

/// The routing rule, step 2 to 4 of the reading loop: responses complete
/// the matching call, splitting on whether the error slot is nil;
/// requests go to the handler with their msgid; notifications named
/// "redraw" enter the ordered lane; all others are dispatched directly.
pub fn route_message(msg: RpcMessage) -> (r: Routing)
    ensures
        match msg@ {
            RpcMsg::Request { msgid, method, params } => r matches Routing::Request {
                msgid: i,
                method: m,
                params: p,
            } && i == msgid && m@ == method && models(p@) == params,
            RpcMsg::Response { msgid, error, result } => r matches Routing::Response {
                msgid: i,
                response: resp,
            } && i == msgid && (if error is Nil {
                resp matches Ok(v) && v@ == result
            } else {
                resp matches Err(v) && v@ == error
            }),
            RpcMsg::Notification { method, params } => {
                if method == redraw_name() {
                    r matches Routing::Redraw { params: p } && models(p@) == params
                } else {
                    r matches Routing::Notify { method: m, params: p } && m@ == method && models(
                        p@,
                    ) == params
                }
            },
        },
{
    match msg {
        RpcMessage::RpcRequest { msgid, method, params } => Routing::Request {
            msgid,
            method,
            params,
        },
        RpcMessage::RpcResponse { msgid, error, result } => {
            if matches!(error, WireValue::Nil) {
                Routing::Response { msgid, response: Ok(result) }
            } else {
                Routing::Response { msgid, response: Err(error) }
            }
        },
        RpcMessage::RpcNotification { method, params } => {
            if is_redraw(&method) {
                Routing::Redraw { params }
            } else {
                Routing::Notify { method, params }
            }
        },
    }
}

/// Build the response frame for an inbound request: the handler's
/// success fills `result` and leaves `error` nil; its failure fills
/// `error` and leaves `result` nil.
pub fn response_message(msgid: u64, outcome: Result<WireValue, WireValue>) -> (r: RpcMessage)
    ensures
        match outcome {
            Ok(v) => r@ == (RpcMsg::Response { msgid, error: WireVal::Nil, result: v@ }),
            Err(v) => r@ == (RpcMsg::Response { msgid, error: v@, result: WireVal::Nil }),
        },
{
    match outcome {
        Ok(result) => RpcMessage::RpcResponse { msgid, error: WireValue::Nil, result },
        Err(error) => RpcMessage::RpcResponse { msgid, error, result: WireValue::Nil },
    }
}

} // verus!
