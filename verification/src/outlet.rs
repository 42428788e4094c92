//! The channels through which a broadcast reaches its subscribers.
use crate::channel::connected;
use crate::message::MessageView;
use crate::message::PortMessage;
use tokio::sync::mpsc;
use vstd::prelude::*;

verus! {

/// `tokio::sync::mpsc::error::TrySendError`, which holds a message that was not sent.
#[verifier::external_type_specification]
#[verifier::external_body]
#[verifier::reject_recursive_types(T)]
pub struct ExTrySendError<T>(mpsc::error::TrySendError<T>);

/// The only sending half of a bounded channel: it is never cloned or handed out, so nothing but
/// this outlet puts messages into the channel.
pub struct Outlet {
    tx: mpsc::Sender<PortMessage>,
}

/// The messages that the outlet's channel has taken so far, whether they were received since or
/// not, in the order in which it took them.
pub uninterp spec fn taken(outlet: Outlet) -> Seq<MessageView>;

/// The messages that the outlet's channel has given back so far, in the order in which they were
/// tried.
pub uninterp spec fn given_back(outlet: Outlet) -> Seq<MessageView>;

/// The sending half that the outlet was opened with. Which one that is never changes.
pub uninterp spec fn sender_of(outlet: Outlet) -> mpsc::Sender<PortMessage>;

/// What offering a message to one subscriber came to.
#[derive(Debug, Clone, Copy, PartialEq, Eq, Structural)]
pub enum Delivery {
    /// The subscriber's channel took it.
    Sent,
    /// The subscriber is gone.
    Gone,
    /// The subscriber is there, but its channel is full.
    Full,
}

/// Whether offering `message` through `before` may come to `delivery` and leave `after`: the
/// same outlet, on which that message was tried once, and nothing else. The channel took it and
/// it is the last one there; or the channel gave it back and, asked after that, said whether it
/// is closed.
pub open spec fn offered(
    before: Outlet,
    message: MessageView,
    delivery: Delivery,
    after: Outlet,
) -> bool {
    &&& sender_of(after) == sender_of(before)
    &&& match delivery {
        Delivery::Sent => {
            &&& taken(after) == taken(before).push(message)
            &&& given_back(after) == given_back(before)
        },
        Delivery::Gone => {
            &&& taken(after) == taken(before)
            &&& given_back(after) == given_back(before).push(message)
            &&& after.answers_closed(true)
        },
        Delivery::Full => {
            &&& taken(after) == taken(before)
            &&& given_back(after) == given_back(before).push(message)
            &&& after.answers_closed(false)
        },
    }
}

impl Outlet {
    /// Whether the outlet's channel may answer `closed` to the question whether it is closed.
    pub closed spec fn answers_closed(self, closed: bool) -> bool {
        call_ensures(Outlet::is_closed, (&self,), closed)
    }

    /// `tokio::sync::mpsc::channel`: a new bounded channel, as its two halves. Nothing has gone
    /// through it yet. It panics for a capacity of zero or above `Semaphore::MAX_PERMITS`, which
    /// is `usize::MAX >> 3`.
    #[verifier::external_body]
    pub(crate) fn open(capacity: usize) -> (r: (Outlet, mpsc::Receiver<PortMessage>))
        requires
            0 < capacity <= usize::MAX / 8,
        ensures
            connected(sender_of(r.0), r.1, capacity),
            taken(r.0) == Seq::<MessageView>::empty(),
            given_back(r.0) == Seq::<MessageView>::empty(),
    {
        let (tx, rx) = mpsc::channel(capacity);
        (Outlet { tx }, rx)
    }

    /// `tokio::sync::mpsc::Sender::try_send`: puts the message into the channel once, behind all
    /// that is there, or gives it back in the error and leaves the channel as it was. Which of
    /// these comes depends on what the receiver has done meanwhile, so that is left open.
    #[verifier::external_body]
    fn try_send(&mut self, message: PortMessage) -> (r: Result<
        (),
        mpsc::error::TrySendError<PortMessage>,
    >)
        ensures
            sender_of(*final(self)) == sender_of(*old(self)),
            r is Ok ==> taken(*final(self)) == taken(*old(self)).push(message@) && given_back(
                *final(self),
            ) == given_back(*old(self)),
            r is Err ==> taken(*final(self)) == taken(*old(self)) && given_back(*final(self))
                == given_back(*old(self)).push(message@),
    {
        self.tx.try_send(message)
    }

    /// `tokio::sync::mpsc::Sender::is_closed`: whether the receiver is gone. That depends on what
    /// the receiver has done meanwhile, so nothing is claimed of the result.
    #[verifier::external_body]
    fn is_closed(&self) -> bool {
        self.tx.is_closed()
    }

    /// Offers `message` to the subscriber behind the outlet.
    pub(crate) fn offer(&mut self, message: PortMessage) -> (r: Delivery)
        ensures
            offered(*old(self), message@, r, *final(self)),
    {
        if self.try_send(message).is_ok() {
            return Delivery::Sent;
        }
        let closed = self.is_closed();
        assert(self.answers_closed(closed));
        if closed {
            Delivery::Gone
        } else {
            Delivery::Full
        }
    }
}

/// What an outlet may answer of its channel being closed is what the channel may.
proof fn law_outlet_answers_as_its_channel(outlet: Outlet, closed: bool)
    requires
        outlet.answers_closed(closed),
    ensures
        call_ensures(Outlet::is_closed, (&outlet,), closed),
{
}

} // verus!
