//! The result channel: the bounded queue that carries solutions from the
//! workers to the collector, and the inbox at which the collector waits for
//! them.

use crossbeam::channel::{Receiver, Sender};
use vstd::prelude::*;

verus! {

/// The sending end of a channel, `crossbeam::channel::Sender`. Nothing is
/// known of what is inside.
#[verifier::external_type_specification]
#[verifier::external_body]
#[verifier::reject_recursive_types(T)]
pub struct ExSender<T>(Sender<T>);

/// The receiving end of a channel, `crossbeam::channel::Receiver`. Nothing
/// is known of what is inside.
#[verifier::external_type_specification]
#[verifier::external_body]
#[verifier::reject_recursive_types(T)]
pub struct ExReceiver<T>(Receiver<T>);

/// The largest capacity with which the harness makes a channel.
pub const MAX_CAPACITY: usize = 65536;

/// Makes a channel that holds at most `capacity` messages; with a capacity
/// of zero, a message is handed over only when sender and receiver meet.
///
/// Calls `crossbeam::channel::bounded`, which allocates the slots at once
/// and panics where the capacity is too large for its own arithmetic. Up to
/// `MAX_CAPACITY` that arithmetic cannot overflow. Nothing is claimed of the
/// two ends.
#[verifier::external_body]
pub(crate) fn bounded<M>(capacity: usize) -> (ends: (Sender<M>, Receiver<M>))
    requires
        capacity <= MAX_CAPACITY,
{
    crossbeam::channel::bounded(capacity)
}

/// Another sending end of the same channel.
///
/// Calls `clone` of `crossbeam::channel::Sender`, which counts the ends of
/// its channel and gives up only when their number no longer fits in an
/// `isize`; each end takes memory, so that number is out of reach. Nothing
/// is claimed of the result.
#[verifier::external_body]
pub(crate) fn share<M>(sender: &Sender<M>) -> (another: Sender<M>) {
    sender.clone()
}

/// Sends `message`, waiting while the channel is full, and tells whether the
/// channel took it.
///
/// Calls `send` of `crossbeam::channel::Sender`, which fails once the
/// receiving end is gone. Whether that has happened depends on the other
/// threads, so nothing is claimed of the result.
#[verifier::external_body]
pub(crate) fn send<M>(sender: &Sender<M>, message: M) -> (taken: bool) {
    sender.send(message).is_ok()
}

/// Waits for the next message. There is none once the channel is empty and
/// every sending end is gone.
///
/// Calls `recv` of `crossbeam::channel::Receiver`. Which message comes, and
/// whether any, depends on the other threads, so nothing is claimed of the
/// result.
#[verifier::external_body]
pub(crate) fn receive<M>(receiver: &Receiver<M>) -> (message: Option<M>) {
    receiver.recv().ok()
}

/// The capacity with which the harness makes a channel when `capacity` is
/// asked for: `capacity` itself, or the largest that the harness allows where
/// `capacity` is more.
pub fn room(capacity: usize) -> (r: usize)
    ensures
        r == if capacity <= MAX_CAPACITY {
            capacity
        } else {
            MAX_CAPACITY
        },
{
    if capacity <= MAX_CAPACITY {
        capacity
    } else {
        MAX_CAPACITY
    }
}

/// A sending end of a channel together with the record of what was handed to
/// the channel through it, oldest first.
#[verifier::reject_recursive_types(M)]
pub struct Outbox<M> {
    sender: Sender<M>,
    sent: Ghost<Seq<M>>,
}

impl<M> Outbox<M> {
    /// The messages that were handed to the channel through this end, oldest
    /// first.
    pub closed spec fn sent(&self) -> Seq<M> {
        self.sent@
    }

    /// An outbox for `sender` through which nothing was sent yet.
    pub(crate) fn new(sender: Sender<M>) -> (r: Self)
        ensures
            r.sent() == Seq::<M>::empty(),
    {
        Outbox { sender, sent: Ghost(Seq::empty()) }
    }

    /// Another sending end of the same channel, through which nothing was
    /// sent yet.
    pub(crate) fn share(&self) -> (r: Self)
        ensures
            r.sent() == Seq::<M>::empty(),
    {
        Outbox { sender: share(&self.sender), sent: Ghost(Seq::empty()) }
    }

    /// Hands `message` to the channel, waiting while the channel is full, and
    /// tells whether the channel took it.
    pub(crate) fn send(&mut self, message: M) -> (taken: bool)
        ensures
            final(self).sent() == old(self).sent().push(message),
    {
        let ghost handed = message;
        let taken = send(&self.sender, message);
        proof {
            self.sent@ = self.sent@.push(handed);
        }
        taken
    }
}

/// The receiving end of a channel together with the record of what came out
/// of it: the messages, oldest first, and whether a wait has found the
/// channel empty with every sending end gone.
#[verifier::reject_recursive_types(M)]
pub struct Inbox<M> {
    receiver: Receiver<M>,
    received: Ghost<Seq<M>>,
    exhausted: Ghost<bool>,
}

impl<M> Inbox<M> {
    /// The messages that came out of the channel, oldest first.
    pub closed spec fn received(&self) -> Seq<M> {
        self.received@
    }

    /// Whether a wait for a message has found the channel empty with every
    /// sending end gone.
    pub closed spec fn exhausted(&self) -> bool {
        self.exhausted@
    }

    /// The messages that came out of the channel since the inbox was in the
    /// state `before`.
    pub open spec fn received_since(&self, before: &Self) -> Seq<M> {
        self.received().skip(before.received().len() as int)
    }

    /// Whether this is a later state of `before` in which `messages` more
    /// have come out of the channel, in this order.
    pub open spec fn took(&self, before: &Self, messages: Seq<M>) -> bool {
        self.received() =~= before.received() + messages
    }

    /// An inbox for `receiver` out of which nothing has come yet.
    pub(crate) fn new(receiver: Receiver<M>) -> (r: Self)
        ensures
            r.received() == Seq::<M>::empty(),
            !r.exhausted(),
    {
        Inbox { receiver, received: Ghost(Seq::empty()), exhausted: Ghost(false) }
    }

    /// Waits for the next message. There is none once the channel is empty
    /// and every sending end is gone.
    pub(crate) fn take(&mut self) -> (r: Option<M>)
        ensures
            match r {
                Some(message) => {
                    &&& final(self).received() == old(self).received().push(message)
                    &&& final(self).exhausted() == old(self).exhausted()
                },
                None => {
                    &&& final(self).received() == old(self).received()
                    &&& final(self).exhausted()
                },
            },
    {
        let r = receive(&self.receiver);
        proof {
            if r is Some {
                self.received@ = self.received@.push(r->Some_0);
            } else {
                self.exhausted@ = true;
            }
        }
        r
    }
}

} // verus!
