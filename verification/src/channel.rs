//! Ports that are connected in pairs by bounded channels.
use crate::clock::clock_millis;
use crate::clock::now_millis;
use crate::error::PortError;
use crate::message::PortMessage;
use crate::port::AsyncPort;
use crate::stats::PortStats;
use std::time::Duration;
use tokio::sync::mpsc;
use vstd::prelude::*;

verus! {

/// `tokio::sync::mpsc::Sender`, the sending half of a bounded channel.
#[verifier::external_type_specification]
#[verifier::external_body]
#[verifier::reject_recursive_types(T)]
pub struct ExSender<T>(mpsc::Sender<T>);

/// `tokio::sync::mpsc::Receiver`, the receiving half of a bounded channel.
#[verifier::external_type_specification]
#[verifier::external_body]
#[verifier::reject_recursive_types(T)]
pub struct ExReceiver<T>(mpsc::Receiver<T>);

/// `tokio::sync::mpsc::channel`: a new bounded channel, as its two halves. It panics for a
/// capacity of zero or above `Semaphore::MAX_PERMITS`, which is `usize::MAX >> 3`. What goes
/// through the channel later is state that the halves share; nothing is claimed of it.
pub assume_specification<T>[ mpsc::channel::<T> ](buffer: usize) -> (r: (
    mpsc::Sender<T>,
    mpsc::Receiver<T>,
))
    requires
        0 < buffer <= usize::MAX / 8,
;

/// Whether `tx` and `rx` may be the two halves of one channel made with `capacity`.
pub open spec fn connected(
    tx: mpsc::Sender<PortMessage>,
    rx: mpsc::Receiver<PortMessage>,
    capacity: usize,
) -> bool {
    call_ensures(mpsc::channel::<PortMessage>, (capacity,), (tx, rx))
}

/// What waiting for a message for a limited time came to.
#[derive(Debug)]
pub enum PollOutcome {
    /// A message arrived in time.
    Message(PortMessage),
    /// The other end is gone and nothing is left to receive.
    Disconnected,
    /// The time ran out.
    Elapsed,
}

/// A bidirectional port backed by a pair of channels.
///
/// Create with [`ChannelPort::pair`].
pub struct ChannelPort {
    tx: mpsc::Sender<PortMessage>,
    rx: mpsc::Receiver<PortMessage>,
    endpoint_name: String,
    active: bool,
    stats: PortStats,
}

/// The state of a [`ChannelPort`].
pub struct ChannelView {
    pub tx: mpsc::Sender<PortMessage>,
    pub rx: mpsc::Receiver<PortMessage>,
    pub name: Seq<char>,
    pub active: bool,
    pub stats: PortStats,
}

impl ChannelView {
    /// What a send gives to the channel: the message itself, or the error of a closed port.
    pub open spec fn admits(self, message: PortMessage) -> Result<PortMessage, PortError> {
        if self.active {
            Ok(message)
        } else {
            Err(PortError::Closed)
        }
    }

    /// The state after a send that the channel accepted at `now`, or did not accept.
    pub open spec fn after_send(self, delivered: bool, now: u64) -> ChannelView {
        if delivered {
            ChannelView {
                stats: PortStats {
                    sent: (self.stats.sent + 1) as u64,
                    last_activity: Some(now),
                    ..self.stats
                },
                ..self
            }
        } else {
            ChannelView {
                active: false,
                stats: PortStats { errors: (self.stats.errors + 1) as u64, ..self.stats },
                ..self
            }
        }
    }

    /// The state after waiting for a message until `now`.
    pub open spec fn after_poll(self, outcome: PollOutcome, now: u64) -> ChannelView {
        match outcome {
            PollOutcome::Message(_) => ChannelView {
                stats: PortStats {
                    received: (self.stats.received + 1) as u64,
                    last_activity: Some(now),
                    ..self.stats
                },
                ..self
            },
            PollOutcome::Disconnected => ChannelView { active: false, ..self },
            PollOutcome::Elapsed => self,
        }
    }
}

/// What a channel without a time limit gave, as the outcome of a wait.
pub open spec fn outcome_of(received: Option<PortMessage>) -> PollOutcome {
    match received {
        Some(message) => PollOutcome::Message(message),
        None => PollOutcome::Disconnected,
    }
}

/// What a port hands on of a wait: the message, if one came.
pub open spec fn message_of(outcome: PollOutcome) -> Option<PortMessage> {
    match outcome {
        PollOutcome::Message(message) => Some(message),
        _ => None,
    }
}

impl View for ChannelPort {
    type V = ChannelView;

    closed spec fn view(&self) -> ChannelView {
        ChannelView {
            tx: self.tx,
            rx: self.rx,
            name: self.endpoint_name@,
            active: self.active,
            stats: self.stats,
        }
    }
}

impl ChannelPort {
    /// Creates two ports, each of which receives what the other sends, with the given
    /// per-direction capacity.
    pub fn pair(capacity: usize) -> (r: (Self, Self))
        requires
            0 < capacity <= usize::MAX / 8,
        ensures
            connected(r.0@.tx, r.1@.rx, capacity),
            connected(r.1@.tx, r.0@.rx, capacity),
            r.0@.name == "channel-a"@,
            r.1@.name == "channel-b"@,
            r.0@.active && r.1@.active,
            r.0@.stats == PortStats::zero() && r.1@.stats == PortStats::zero(),
    {
        Self::pair_named(capacity, "channel-a", "channel-b")
    }

    /// Creates a pair with custom endpoint names.
    pub fn pair_named(capacity: usize, name_a: &str, name_b: &str) -> (r: (Self, Self))
        requires
            0 < capacity <= usize::MAX / 8,
        ensures
            connected(r.0@.tx, r.1@.rx, capacity),
            connected(r.1@.tx, r.0@.rx, capacity),
            r.0@.name == name_a@,
            r.1@.name == name_b@,
            r.0@.active && r.1@.active,
            r.0@.stats == PortStats::zero() && r.1@.stats == PortStats::zero(),
    {
        let (tx_a, rx_b) = mpsc::channel::<PortMessage>(capacity);
        let (tx_b, rx_a) = mpsc::channel::<PortMessage>(capacity);
        let a = ChannelPort {
            tx: tx_a,
            rx: rx_a,
            endpoint_name: name_a.into(),
            active: true,
            stats: PortStats::new(),
        };
        let b = ChannelPort {
            tx: tx_b,
            rx: rx_b,
            endpoint_name: name_b.into(),
            active: true,
            stats: PortStats::new(),
        };
        (a, b)
    }

    /// Snapshot stats.
    pub fn stats(&self) -> (r: &PortStats)
        ensures
            *r == self@.stats,
    {
        &self.stats
    }

    /// Where an admitted message has to be sent.
    pub fn sender(&self) -> (r: &mpsc::Sender<PortMessage>)
        ensures
            *r == self@.tx,
    {
        &self.tx
    }

    /// Where messages have to be received from.
    pub fn receiver(&mut self) -> (r: &mut mpsc::Receiver<PortMessage>)
        ensures
            *r == old(self)@.rx,
            final(self)@ == (ChannelView { rx: *final(r), ..old(self)@ }),
    {
        &mut self.rx
    }

    /// Starts to send: the message to hand to [`ChannelPort::sender`], or the error of a closed
    /// port.
    pub fn start_send(&self, message: PortMessage) -> (r: Result<PortMessage, PortError>)
        ensures
            r == self@.admits(message),
    {
        if !self.active {
            return Err(PortError::Closed);
        }
        Ok(message)
    }

    /// Ends a send at `now`, where `delivered` says whether the channel took the message.
    pub fn finish_send_at(&mut self, delivered: bool, now: u64) -> (r: Result<(), PortError>)
        requires
            delivered ==> old(self)@.stats.sent < u64::MAX,
            !delivered ==> old(self)@.stats.errors < u64::MAX,
        ensures
            final(self)@ == old(self)@.after_send(delivered, now),
            r == (if delivered {
                Ok::<(), PortError>(())
            } else {
                Err(PortError::Disconnected)
            }),
    {
        if delivered {
            self.stats.sent = self.stats.sent + 1;
            self.stats.last_activity = Some(now);
            Ok(())
        } else {
            self.active = false;
            self.stats.errors = self.stats.errors + 1;
            Err(PortError::Disconnected)
        }
    }

    /// Ends a send, where `delivered` says whether the channel took the message.
    pub fn finish_send(&mut self, delivered: bool) -> (r: Result<(), PortError>)
        requires
            delivered ==> old(self)@.stats.sent < u64::MAX,
            !delivered ==> old(self)@.stats.errors < u64::MAX,
        ensures
            exists|now: u64| #[trigger]
                clock_millis(now) && final(self)@ == old(self)@.after_send(delivered, now),
            r == (if delivered {
                Ok::<(), PortError>(())
            } else {
                Err(PortError::Disconnected)
            }),
    {
        self.finish_send_at(delivered, now_millis())
    }

    /// Starts to receive: nothing stands in the way of waiting on [`ChannelPort::receiver`], or
    /// the port is closed.
    pub fn start_receive(&self) -> (r: Result<(), PortError>)
        ensures
            r == (if self@.active {
                Ok::<(), PortError>(())
            } else {
                Err(PortError::Closed)
            }),
    {
        if !self.active {
            return Err(PortError::Closed);
        }
        Ok(())
    }

    /// Ends a receive at `now`, with what the channel gave: a message, or nothing because the
    /// other end is gone.
    pub fn finish_receive_at(&mut self, received: Option<PortMessage>, now: u64) -> (r: Result<
        Option<PortMessage>,
        PortError,
    >)
        requires
            received is Some ==> old(self)@.stats.received < u64::MAX,
        ensures
            final(self)@ == old(self)@.after_poll(outcome_of(received), now),
            r == Ok::<Option<PortMessage>, PortError>(received),
    {
        match received {
            Some(message) => self.finish_poll_at(PollOutcome::Message(message), now),
            None => self.finish_poll_at(PollOutcome::Disconnected, now),
        }
    }

    /// Ends a receive, with what the channel gave: a message, or nothing because the other end
    /// is gone.
    pub fn finish_receive(&mut self, received: Option<PortMessage>) -> (r: Result<
        Option<PortMessage>,
        PortError,
    >)
        requires
            received is Some ==> old(self)@.stats.received < u64::MAX,
        ensures
            exists|now: u64| #[trigger]
                clock_millis(now) && final(self)@ == old(self)@.after_poll(
                    outcome_of(received),
                    now,
                ),
            r == Ok::<Option<PortMessage>, PortError>(received),
    {
        self.finish_receive_at(received, now_millis())
    }

    /// Starts to poll: how long to wait on [`ChannelPort::receiver`], or the error of a closed
    /// port.
    pub fn start_poll(&self, timeout: Duration) -> (r: Result<Duration, PortError>)
        ensures
            r == (if self@.active {
                Ok::<Duration, PortError>(timeout)
            } else {
                Err(PortError::Closed)
            }),
    {
        if !self.active {
            return Err(PortError::Closed);
        }
        Ok(timeout)
    }

    /// Ends a poll at `now`, with what the wait came to.
    pub fn finish_poll_at(&mut self, outcome: PollOutcome, now: u64) -> (r: Result<
        Option<PortMessage>,
        PortError,
    >)
        requires
            outcome is Message ==> old(self)@.stats.received < u64::MAX,
        ensures
            final(self)@ == old(self)@.after_poll(outcome, now),
            r == Ok::<Option<PortMessage>, PortError>(message_of(outcome)),
    {
        match outcome {
            PollOutcome::Message(message) => {
                self.stats.received = self.stats.received + 1;
                self.stats.last_activity = Some(now);
                Ok(Some(message))
            },
            PollOutcome::Disconnected => {
                self.active = false;
                Ok(None)
            },
            PollOutcome::Elapsed => Ok(None),
        }
    }

    /// Ends a poll, with what the wait came to.
    pub fn finish_poll(&mut self, outcome: PollOutcome) -> (r: Result<
        Option<PortMessage>,
        PortError,
    >)
        requires
            outcome is Message ==> old(self)@.stats.received < u64::MAX,
        ensures
            exists|now: u64| #[trigger]
                clock_millis(now) && final(self)@ == old(self)@.after_poll(outcome, now),
            r == Ok::<Option<PortMessage>, PortError>(message_of(outcome)),
    {
        self.finish_poll_at(outcome, now_millis())
    }

    /// Gracefully closes the port.
    pub fn close(&mut self) -> (r: Result<(), PortError>)
        ensures
            r == Ok::<(), PortError>(()),
            final(self)@ == (ChannelView { active: false, ..old(self)@ }),
    {
        self.active = false;
        Ok(())
    }
}

impl AsyncPort for ChannelPort {
    fn is_active(&self) -> (r: bool)
        ensures
            r == self@.active,
    {
        self.active
    }

    fn endpoint(&self) -> (r: &str)
        ensures
            r@ == self@.name,
    {
        self.endpoint_name.as_str()
    }
}

/// The state after the channel accepted as many sends as there are times in `nows`.
pub open spec fn after_sends(port: ChannelView, nows: Seq<u64>) -> ChannelView
    decreases nows.len(),
{
    if nows.len() == 0 {
        port
    } else {
        after_sends(port, nows.drop_last()).after_send(true, nows.last())
    }
}

/// The state after the messages in `arrived` were received at the times in `nows`.
pub open spec fn after_receives(
    port: ChannelView,
    arrived: Seq<PortMessage>,
    nows: Seq<u64>,
) -> ChannelView
    decreases arrived.len(),
{
    if arrived.len() == 0 {
        port
    } else {
        after_receives(port, arrived.drop_last(), nows.drop_last()).after_poll(
            outcome_of(Some(arrived.last())),
            nows.last(),
        )
    }
}

proof fn lemma_after_sends(port: ChannelView, nows: Seq<u64>)
    requires
        port.stats.sent + nows.len() <= u64::MAX,
    ensures
        after_sends(port, nows).active == port.active,
        after_sends(port, nows).stats.sent == port.stats.sent + nows.len(),
        after_sends(port, nows).stats.received == port.stats.received,
        after_sends(port, nows).stats.errors == port.stats.errors,
    decreases nows.len(),
{
    if nows.len() > 0 {
        lemma_after_sends(port, nows.drop_last());
    }
}

proof fn lemma_after_receives(port: ChannelView, arrived: Seq<PortMessage>, nows: Seq<u64>)
    requires
        port.stats.received + arrived.len() <= u64::MAX,
        nows.len() == arrived.len(),
    ensures
        after_receives(port, arrived, nows).active == port.active,
        after_receives(port, arrived, nows).stats.received == port.stats.received + arrived.len(),
        after_receives(port, arrived, nows).stats.sent == port.stats.sent,
        after_receives(port, arrived, nows).stats.errors == port.stats.errors,
    decreases arrived.len(),
{
    if arrived.len() > 0 {
        lemma_after_receives(port, arrived.drop_last(), nows.drop_last());
    }
}

/// What one port of a pair sends, the other receives in the same order: an active port hands
/// every message to its channel unchanged, however many went before; and where what comes out
/// of the channel is what was put in, in that order, the other port gives out the same messages
/// in that order. Both count what they moved, and nothing else, and stay active.
pub proof fn law_pair_delivers_in_order(
    a: ChannelView,
    b: ChannelView,
    messages: Seq<PortMessage>,
    sent_at: Seq<u64>,
    arrived: Seq<PortMessage>,
    received_at: Seq<u64>,
)
    requires
        a.active,
        b.active,
        sent_at.len() == messages.len(),
        received_at.len() == arrived.len(),
        arrived.is_prefix_of(messages),
        a.stats.sent + messages.len() <= u64::MAX,
        b.stats.received + arrived.len() <= u64::MAX,
    ensures
        forall|i: int|
            0 <= i < messages.len() ==> #[trigger] after_sends(a, sent_at.take(i)).admits(
                messages[i],
            ) == Ok::<PortMessage, PortError>(messages[i]),
        forall|i: int|
            0 <= i < arrived.len() ==> outcome_of(Some(#[trigger] arrived[i]))
                == PollOutcome::Message(messages[i]) && message_of(
                PollOutcome::Message(arrived[i]),
            ) == Some(messages[i]),
        after_sends(a, sent_at).active,
        after_sends(a, sent_at).stats.sent == a.stats.sent + messages.len(),
        after_sends(a, sent_at).stats.received == a.stats.received,
        after_sends(a, sent_at).stats.errors == a.stats.errors,
        after_receives(b, arrived, received_at).active,
        after_receives(b, arrived, received_at).stats.received == b.stats.received + arrived.len(),
        after_receives(b, arrived, received_at).stats.sent == b.stats.sent,
        after_receives(b, arrived, received_at).stats.errors == b.stats.errors,
{
    lemma_after_sends(a, sent_at);
    lemma_after_receives(b, arrived, received_at);
    assert forall|i: int| 0 <= i < messages.len() implies #[trigger] after_sends(
        a,
        sent_at.take(i),
    ).admits(messages[i]) == Ok::<PortMessage, PortError>(messages[i]) by {
        lemma_after_sends(a, sent_at.take(i));
    }
}

/// A closed port refuses every message, and nothing that a port goes through opens it again.
pub proof fn law_closed_port_stays_closed(
    port: ChannelView,
    message: PortMessage,
    delivered: bool,
    outcome: PollOutcome,
    now: u64,
)
    requires
        !port.active,
    ensures
        port.admits(message) == Err::<PortMessage, PortError>(PortError::Closed),
        !port.after_send(delivered, now).active,
        !port.after_poll(outcome, now).active,
{
}

/// A port becomes inactive, other than by closing it, exactly when a send fails or a wait finds
/// the other end gone.
pub proof fn law_port_closes_only_on_disconnection(
    port: ChannelView,
    delivered: bool,
    outcome: PollOutcome,
    now: u64,
)
    requires
        port.active,
    ensures
        port.after_send(delivered, now).active <==> delivered,
        port.after_poll(outcome, now).active <==> !(outcome is Disconnected),
{
}

/// The two ports of a pair are new: active, with nothing counted, and under the names that were
/// given. What one sends goes into a channel of the given capacity that the other receives from.
pub proof fn law_pair_is_connected_crosswise(
    capacity: usize,
    name_a: &str,
    name_b: &str,
    r: (ChannelPort, ChannelPort),
)
    requires
        call_ensures(ChannelPort::pair_named, (capacity, name_a, name_b), r),
    ensures
        call_ensures(mpsc::channel::<PortMessage>, (capacity,), (r.0@.tx, r.1@.rx)),
        call_ensures(mpsc::channel::<PortMessage>, (capacity,), (r.1@.tx, r.0@.rx)),
        r.0@.name == name_a@,
        r.1@.name == name_b@,
        r.0@.active,
        r.1@.active,
        r.0@.stats == (PortStats {
            sent: 0,
            received: 0,
            dropped: 0,
            errors: 0,
            last_activity: None,
        }),
        r.1@.stats == r.0@.stats,
{
}

/// A pair without names of its own is a pair under the names `channel-a` and `channel-b`.
pub proof fn law_pair_has_standard_names(capacity: usize, r: (ChannelPort, ChannelPort))
    requires
        call_ensures(ChannelPort::pair, (capacity,), r),
    ensures
        call_ensures(mpsc::channel::<PortMessage>, (capacity,), (r.0@.tx, r.1@.rx)),
        call_ensures(mpsc::channel::<PortMessage>, (capacity,), (r.1@.tx, r.0@.rx)),
        r.0@.name == "channel-a"@,
        r.1@.name == "channel-b"@,
        r.0@.active,
        r.1@.active,
        r.0@.stats == (PortStats {
            sent: 0,
            received: 0,
            dropped: 0,
            errors: 0,
            last_activity: None,
        }),
        r.1@.stats == r.0@.stats,
{
}

/// What a port answers is what it is: whether it is active, its name, what it counted, and the
/// channel that it sends into.
pub proof fn law_port_answers_for_itself(
    port: ChannelPort,
    active: bool,
    name: &str,
    stats: &PortStats,
    sender: &mpsc::Sender<PortMessage>,
)
    requires
        call_ensures(<ChannelPort as AsyncPort>::is_active, (&port,), active),
        call_ensures(<ChannelPort as AsyncPort>::endpoint, (&port,), name),
        call_ensures(ChannelPort::stats, (&port,), stats),
        call_ensures(ChannelPort::sender, (&port,), sender),
    ensures
        active == port@.active,
        name@ == port@.name,
        *stats == port@.stats,
        *sender == port@.tx,
{
}

/// Receiving from a port's channel is receiving from the port, and touches nothing else of it.
pub proof fn law_receiver_is_the_ports_own(
    port: &mut ChannelPort,
    receiver: &mut mpsc::Receiver<PortMessage>,
)
    requires
        call_ensures(ChannelPort::receiver, (port,), receiver),
    ensures
        *old(receiver) == old(port)@.rx,
        *final(receiver) == final(port)@.rx,
        final(port)@.tx == old(port)@.tx,
        final(port)@.name == old(port)@.name,
        final(port)@.active == old(port)@.active,
        final(port)@.stats == old(port)@.stats,
{
}

/// An active port hands every message on as it is, and waits for as long as it was told; one
/// that is not active refuses to send, to receive and to poll, always with `Closed`.
pub proof fn law_only_an_active_port_starts(
    port: ChannelPort,
    message: PortMessage,
    sending: Result<PortMessage, PortError>,
    receiving: Result<(), PortError>,
    timeout: Duration,
    polling: Result<Duration, PortError>,
)
    requires
        call_ensures(ChannelPort::start_send, (&port, message), sending),
        call_ensures(ChannelPort::start_receive, (&port,), receiving),
        call_ensures(ChannelPort::start_poll, (&port, timeout), polling),
    ensures
        port@.active ==> sending == Ok::<PortMessage, PortError>(message),
        port@.active ==> receiving == Ok::<(), PortError>(()),
        port@.active ==> polling == Ok::<Duration, PortError>(timeout),
        !port@.active ==> sending == Err::<PortMessage, PortError>(PortError::Closed),
        !port@.active ==> receiving == Err::<(), PortError>(PortError::Closed),
        !port@.active ==> polling == Err::<Duration, PortError>(PortError::Closed),
{
}

/// A send succeeds exactly when the channel took the message. It then counts as sent, at the
/// time of the send, and the port is as active as before; otherwise the other end is gone, which
/// counts as an error and makes the port inactive. Nothing else of the port changes.
pub proof fn law_send_ends_as_the_channel_says(
    port: &mut ChannelPort,
    delivered: bool,
    now: u64,
    r: Result<(), PortError>,
)
    requires
        call_ensures(ChannelPort::finish_send_at, (port, delivered, now), r) || call_ensures(
            ChannelPort::finish_send,
            (port, delivered),
            r,
        ),
        delivered ==> old(port)@.stats.sent < u64::MAX,
        !delivered ==> old(port)@.stats.errors < u64::MAX,
    ensures
        delivered ==> r == Ok::<(), PortError>(()),
        !delivered ==> r == Err::<(), PortError>(PortError::Disconnected),
        final(port)@.active == (old(port)@.active && delivered),
        final(port)@.stats.sent - old(port)@.stats.sent == (if delivered {
            1int
        } else {
            0int
        }),
        final(port)@.stats.errors - old(port)@.stats.errors == (if delivered {
            0int
        } else {
            1int
        }),
        delivered && call_ensures(ChannelPort::finish_send_at, (port, delivered, now), r)
            ==> final(port)@.stats.last_activity == Some(now),
        delivered && call_ensures(ChannelPort::finish_send, (port, delivered), r)
            ==> (final(port)@.stats.last_activity matches Some(t) && clock_millis(t)),
        !delivered ==> final(port)@.stats.last_activity == old(port)@.stats.last_activity,
        final(port)@.stats.received == old(port)@.stats.received,
        final(port)@.stats.dropped == old(port)@.stats.dropped,
        final(port)@.tx == old(port)@.tx,
        final(port)@.rx == old(port)@.rx,
        final(port)@.name == old(port)@.name,
{
}

/// A receive gives out exactly what the channel gave. A message counts as received, at the time
/// of the receive; nothing means that the other end is gone, and makes the port inactive.
/// Nothing else of the port changes.
pub proof fn law_receive_gives_what_the_channel_gave(
    port: &mut ChannelPort,
    received: Option<PortMessage>,
    now: u64,
    r: Result<Option<PortMessage>, PortError>,
)
    requires
        call_ensures(ChannelPort::finish_receive_at, (port, received, now), r) || call_ensures(
            ChannelPort::finish_receive,
            (port, received),
            r,
        ),
        received is Some ==> old(port)@.stats.received < u64::MAX,
    ensures
        received matches Some(message) ==> r == Ok::<Option<PortMessage>, PortError>(
            Some(message),
        ),
        received is None ==> r == Ok::<Option<PortMessage>, PortError>(None),
        final(port)@.active == (old(port)@.active && received is Some),
        final(port)@.stats.received - old(port)@.stats.received == (if received is Some {
            1int
        } else {
            0int
        }),
        received is Some && call_ensures(ChannelPort::finish_receive_at, (port, received, now), r)
            ==> final(port)@.stats.last_activity == Some(now),
        received is Some && call_ensures(ChannelPort::finish_receive, (port, received), r)
            ==> (final(port)@.stats.last_activity matches Some(t) && clock_millis(t)),
        received is None ==> final(port)@.stats.last_activity == old(port)@.stats.last_activity,
        final(port)@.stats.sent == old(port)@.stats.sent,
        final(port)@.stats.dropped == old(port)@.stats.dropped,
        final(port)@.stats.errors == old(port)@.stats.errors,
        final(port)@.tx == old(port)@.tx,
        final(port)@.rx == old(port)@.rx,
        final(port)@.name == old(port)@.name,
{
}

/// A poll gives out the very message that arrived in time, which counts as received, at the time
/// of the poll. Without one it gives nothing and no error, and counts nothing; only where the
/// other end is gone the port becomes inactive. Nothing else of the port changes.
pub proof fn law_poll_gives_what_the_wait_came_to(
    port: &mut ChannelPort,
    outcome: PollOutcome,
    now: u64,
    r: Result<Option<PortMessage>, PortError>,
)
    requires
        call_ensures(ChannelPort::finish_poll_at, (port, outcome, now), r) || call_ensures(
            ChannelPort::finish_poll,
            (port, outcome),
            r,
        ),
        outcome is Message ==> old(port)@.stats.received < u64::MAX,
    ensures
        outcome matches PollOutcome::Message(message) ==> r == Ok::<Option<PortMessage>, PortError>(
            Some(message),
        ),
        !(outcome is Message) ==> r == Ok::<Option<PortMessage>, PortError>(None),
        final(port)@.active == (old(port)@.active && !(outcome is Disconnected)),
        final(port)@.stats.received - old(port)@.stats.received == (if outcome is Message {
            1int
        } else {
            0int
        }),
        outcome is Message && call_ensures(ChannelPort::finish_poll_at, (port, outcome, now), r)
            ==> final(port)@.stats.last_activity == Some(now),
        outcome is Message && call_ensures(ChannelPort::finish_poll, (port, outcome), r)
            ==> (final(port)@.stats.last_activity matches Some(t) && clock_millis(t)),
        !(outcome is Message)
            ==> final(port)@.stats.last_activity == old(port)@.stats.last_activity,
        final(port)@.stats.sent == old(port)@.stats.sent,
        final(port)@.stats.dropped == old(port)@.stats.dropped,
        final(port)@.stats.errors == old(port)@.stats.errors,
        final(port)@.tx == old(port)@.tx,
        final(port)@.rx == old(port)@.rx,
        final(port)@.name == old(port)@.name,
{
}

/// Closing always succeeds, and leaves the port as it was but inactive.
pub proof fn law_close_only_closes(port: &mut ChannelPort, r: Result<(), PortError>)
    requires
        call_ensures(ChannelPort::close, (port,), r),
    ensures
        r == Ok::<(), PortError>(()),
        !final(port)@.active,
        final(port)@.stats == old(port)@.stats,
        final(port)@.tx == old(port)@.tx,
        final(port)@.rx == old(port)@.rx,
        final(port)@.name == old(port)@.name,
{
}

} // verus!
