//! Values that wait for room in a bounded channel.

use std::collections::VecDeque;

use vstd::prelude::*;

verus! {

/// How an attempt to send without waiting ended.
pub enum SendOutcome<T> {
    Sent,
    /// The channel has no room; the value comes back.
    Full(T),
    /// Nobody receives any more; the value is gone.
    Closed,
}

/// Values that are to be sent in order.
pub struct Outbox<T> {
    queue: VecDeque<T>,
}

impl<T> View for Outbox<T> {
    type V = Seq<T>;

    closed spec fn view(&self) -> Seq<T> {
        self.queue@
    }
}

impl<T> Outbox<T> {
    /// An empty outbox.
    pub fn new() -> (o: Self)
        ensures
            o@ == Seq::<T>::empty(),
    {
        Outbox { queue: VecDeque::new() }
    }

    /// Queues a value behind all others.
    pub fn push(&mut self, value: T)
        ensures
            final(self)@ == old(self)@.push(value),
    {
        self.queue.push_back(value);
    }

    /// Takes the value that is to be sent next.
    pub fn take_next(&mut self) -> (next: Option<T>)
        ensures
            match next {
                Some(value) => old(self)@ == seq![value] + final(self)@,
                None => old(self)@.len() == 0 && final(self)@ == old(self)@,
            },
    {
        let next = self.queue.pop_front();
        proof {
            if next is Some {
                assert(old(self)@ =~= seq![next->0] + self@);
            }
        }
        next
    }

    /// Settles the attempt to send the value that was taken last, and says
    /// whether the next one may be tried. A value that found no room goes back
    /// to the front.
    pub fn settle(&mut self, outcome: SendOutcome<T>) -> (go_on: bool)
        ensures
            match outcome {
                SendOutcome::Full(value) => !go_on && final(self)@ == seq![value] + old(self)@,
                SendOutcome::Sent => go_on && final(self)@ == old(self)@,
                SendOutcome::Closed => go_on && final(self)@ == old(self)@,
            },
    {
        match outcome {
            SendOutcome::Sent => true,
            SendOutcome::Full(value) => {
                self.queue.push_front(value);
                false
            },
            SendOutcome::Closed => true,
        }
    }
}

} // verus!
