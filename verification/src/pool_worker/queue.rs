//! The messages that wait to be sent.
use crate::pentair::message::PentairMessage;
use std::collections::VecDeque;
use vstd::prelude::*;

verus! {

/// A queue of outgoing Pentair messages. Threads share one behind a lock.
pub struct MessageQueue {
    queue: VecDeque<PentairMessage>,
}

impl View for MessageQueue {
    type V = Seq<PentairMessage>;

    /// The messages that wait, the next one first.
    closed spec fn view(&self) -> Seq<PentairMessage> {
        self.queue@
    }
}

impl MessageQueue {
    pub fn new() -> (queue: Self)
        ensures
            queue@ == Seq::<PentairMessage>::empty(),
    {
        MessageQueue { queue: VecDeque::new() }
    }

    /// Adds a message behind all others.
    pub fn push(&mut self, msg: PentairMessage)
        ensures
            final(self)@ == old(self)@.push(msg),
    {
        self.queue.push_back(msg);
    }

    /// Takes out the message that has waited longest.
    pub fn pop(&mut self) -> (msg: Option<PentairMessage>)
        ensures
            msg == next_out(old(self)@),
            final(self)@ == without_next(old(self)@),
    {
        let msg: Option<PentairMessage> = self.queue.pop_front();
        assert(self@ =~= without_next(old(self)@));
        msg
    }
}

/// The message that comes out next.
pub open spec fn next_out(queue: Seq<PentairMessage>) -> Option<PentairMessage> {
    if queue.len() == 0 {
        None
    } else {
        Some(queue[0])
    }
}

/// What is left when the next message has come out.
pub open spec fn without_next(queue: Seq<PentairMessage>) -> Seq<PentairMessage> {
    if queue.len() == 0 {
        queue
    } else {
        queue.skip(1)
    }
}

/// The queue after `messages` were added one by one.
pub open spec fn push_all(
    queue: Seq<PentairMessage>,
    messages: Seq<PentairMessage>,
) -> Seq<PentairMessage>
    decreases messages.len(),
{
    if messages.len() == 0 {
        queue
    } else {
        push_all(queue.push(messages[0]), messages.skip(1))
    }
}

/// The messages that come out of `queue` when it is emptied, in that order.
pub open spec fn drained(queue: Seq<PentairMessage>) -> Seq<PentairMessage>
    decreases queue.len(),
{
    match next_out(queue) {
        Some(message) => seq![message] + drained(without_next(queue)),
        None => Seq::empty(),
    }
}

proof fn lemma_push_all(queue: Seq<PentairMessage>, messages: Seq<PentairMessage>)
    ensures
        push_all(queue, messages) == queue + messages,
    decreases messages.len(),
{
    if messages.len() == 0 {
        assert(queue + messages =~= queue);
    } else {
        lemma_push_all(queue.push(messages[0]), messages.skip(1));
        assert(queue.push(messages[0]) + messages.skip(1) =~= queue + messages);
    }
}

proof fn lemma_drained(queue: Seq<PentairMessage>)
    ensures
        drained(queue) == queue,
    decreases queue.len(),
{
    if queue.len() > 0 {
        lemma_drained(queue.skip(1));
        assert(seq![queue[0]] + queue.skip(1) =~= queue);
    } else {
        assert(drained(queue) =~= queue);
    }
}

/// Messages come out in the order in which they were added, behind those that waited before,
/// and none is lost or doubled.
pub proof fn law_first_in_first_out(queue: Seq<PentairMessage>, messages: Seq<PentairMessage>)
    ensures
        drained(push_all(queue, messages)) == queue + messages,
{
    lemma_push_all(queue, messages);
    lemma_drained(queue + messages);
}

/// A call on a queue.
pub enum QueueCall {
    Push(PentairMessage),
    Pop,
}

/// The queue after `calls`.
pub open spec fn queue_after(
    queue: Seq<PentairMessage>,
    calls: Seq<QueueCall>,
) -> Seq<PentairMessage>
    decreases calls.len(),
{
    if calls.len() == 0 {
        queue
    } else {
        let before = queue_after(queue, calls.drop_last());
        match calls.last() {
            QueueCall::Push(message) => before.push(message),
            QueueCall::Pop => without_next(before),
        }
    }
}

/// The messages that come out in the course of `calls`, in that order.
pub open spec fn taken(queue: Seq<PentairMessage>, calls: Seq<QueueCall>) -> Seq<PentairMessage>
    decreases calls.len(),
{
    if calls.len() == 0 {
        Seq::empty()
    } else {
        let before = taken(queue, calls.drop_last());
        match (calls.last(), next_out(queue_after(queue, calls.drop_last()))) {
            (QueueCall::Pop, Some(message)) => before.push(message),
            _ => before,
        }
    }
}

/// The messages that are added in the course of `calls`, in that order.
pub open spec fn added(calls: Seq<QueueCall>) -> Seq<PentairMessage>
    decreases calls.len(),
{
    if calls.len() == 0 {
        Seq::empty()
    } else {
        match calls.last() {
            QueueCall::Push(message) => added(calls.drop_last()).push(message),
            QueueCall::Pop => added(calls.drop_last()),
        }
    }
}

/// However messages are added and taken out by turns, what has come out, followed by what still
/// waits, is what waited before, followed by what was added.
pub proof fn law_order_is_kept_by_turns(queue: Seq<PentairMessage>, calls: Seq<QueueCall>)
    ensures
        taken(queue, calls) + queue_after(queue, calls) == queue + added(calls),
    decreases calls.len(),
{
    if calls.len() > 0 {
        law_order_is_kept_by_turns(queue, calls.drop_last());
        let out = taken(queue, calls.drop_last());
        let waiting = queue_after(queue, calls.drop_last());
        match calls.last() {
            QueueCall::Push(message) => {
                assert(out + waiting.push(message) =~= (out + waiting).push(message));
                assert(queue + added(calls) =~= (queue + added(calls.drop_last())).push(message));
            },
            QueueCall::Pop => {
                if waiting.len() > 0 {
                    assert(out.push(waiting[0]) + waiting.skip(1) =~= out + waiting);
                }
            },
        }
    } else {
        assert(taken(queue, calls) + queue =~= queue);
        assert(queue + added(calls) =~= queue);
    }
}

} // verus!
