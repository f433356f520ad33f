//! Pairing replies with the requests that are waiting for them.
use vstd::prelude::*;

use std::collections::VecDeque;

use crate::message::{Message, MessageModel};

verus! {

/// Whatever waits for the reply to one request.
pub trait PortImpl {
    /// The replies handed to this receiver so far, oldest first. A
    /// receiver that `put` is proved for defines it; the default, no
    /// replies at all, is only there so that receivers outside verified
    /// code need not.
    open spec fn replies(&self) -> Seq<MessageModel> {
        Seq::empty()
    }

    /// Takes a reply: it joins the replies received, unchanged.
    fn put(&mut self, message: &Message)
        ensures
            final(self).replies() == old(self).replies().push(message.model()),
    ;
}

/// The receiving end of one request.
pub struct Port<T>(pub T);

impl<T: PortImpl> Port<T> {
    /// Hands the reply to the waiting receiver; a port is used once. Gives
    /// back the receiver, which has taken the reply, of whatever kind.
    pub fn put(self, val: &Message) -> (target: T)
        ensures
            target.replies() == self.0.replies().push(val.model()),
    {
        let mut target = self.0;
        target.put(val);
        target
    }
}

/// The ports of the requests that are waiting for replies, oldest first.
pub struct PortReceiver<T> {
    pipeline: VecDeque<Port<T>>,
}

impl<T> View for PortReceiver<T> {
    type V = Seq<Port<T>>;

    closed spec fn view(&self) -> Seq<Port<T>> {
        self.pipeline@
    }
}

impl<T> PortReceiver<T> {
    /// A receiver with no request waiting.
    pub fn new() -> (r: PortReceiver<T>)
        ensures
            r@ == Seq::<Port<T>>::empty(),
    {
        PortReceiver { pipeline: VecDeque::new() }
    }

    /// Queues the port of a request that was just sent.
    pub fn add_port(&mut self, port: Port<T>)
        ensures
            final(self)@ == old(self)@.push(port),
    {
        self.pipeline.push_back(port)
    }
}

impl<T> PortReceiver<T> {
    /// Takes the port of the oldest waiting request, the one that the next
    /// reply answers: replies arrive in the order the requests were sent.
    pub fn receive(&mut self) -> (p: Port<T>)
        requires
            old(self)@.len() > 0,
        ensures
            p == old(self)@[0],
            final(self)@ == old(self)@.drop_first(),
    {
        self.pipeline.pop_front().unwrap()
    }
}

impl<T> Clone for PortReceiver<T> {
    /// A copy waits for nothing: ports are not shared.
    fn clone(&self) -> (r: Self)
        ensures
            r@ == Seq::<Port<T>>::empty(),
    {
        PortReceiver::new()
    }
}

/// One operation on a receiver.
pub enum QueueOp<T> {
    /// `add_port` with this port.
    Add(Port<T>),
    /// `receive`.
    Take,
}

/// The waiting ports after a run of operations; taking from an empty
/// receiver, which `receive` does not allow, changes nothing.
pub open spec fn queue_after<T>(q: Seq<Port<T>>, ops: Seq<QueueOp<T>>) -> Seq<Port<T>>
    decreases ops.len(),
{
    if ops.len() == 0 {
        q
    } else {
        let before = queue_after(q, ops.drop_last());
        match ops.last() {
            QueueOp::Add(p) => before.push(p),
            QueueOp::Take => if before.len() > 0 {
                before.drop_first()
            } else {
                before
            },
        }
    }
}

/// The ports that a run of operations took, in order.
pub open spec fn taken<T>(q: Seq<Port<T>>, ops: Seq<QueueOp<T>>) -> Seq<Port<T>>
    decreases ops.len(),
{
    if ops.len() == 0 {
        Seq::empty()
    } else {
        let before = queue_after(q, ops.drop_last());
        let earlier = taken(q, ops.drop_last());
        match ops.last() {
            QueueOp::Add(_) => earlier,
            QueueOp::Take => if before.len() > 0 {
                earlier.push(before[0])
            } else {
                earlier
            },
        }
    }
}

/// The ports that a run of operations added, in order.
pub open spec fn added<T>(ops: Seq<QueueOp<T>>) -> Seq<Port<T>>
    decreases ops.len(),
{
    if ops.len() == 0 {
        Seq::empty()
    } else {
        match ops.last() {
            QueueOp::Add(p) => added(ops.drop_last()).push(p),
            QueueOp::Take => added(ops.drop_last()),
        }
    }
}

/// Ports are taken in the order they were added: the ports waiting at the
/// start and those added since are the ports taken followed by those still
/// waiting, so the `i`-th reply goes to the `i`-th request and no port is
/// taken twice.
pub proof fn law_ports_answered_in_order<T>(q: Seq<Port<T>>, ops: Seq<QueueOp<T>>)
    ensures
        q + added(ops) == taken(q, ops) + queue_after(q, ops),
    decreases ops.len(),
{
    if ops.len() > 0 {
        let ops0 = ops.drop_last();
        law_ports_answered_in_order(q, ops0);
        let before = queue_after(q, ops0);
        match ops.last() {
            QueueOp::Add(p) => {
                assert(q + added(ops0).push(p) =~= (q + added(ops0)).push(p));
                assert(taken(q, ops0) + before.push(p) =~= (taken(q, ops0) + before).push(p));
            },
            QueueOp::Take => {
                if before.len() > 0 {
                    assert(taken(q, ops0).push(before[0]) + before.drop_first() =~= taken(q, ops0)
                        + before);
                }
            },
        }
    }
}

} // verus!
