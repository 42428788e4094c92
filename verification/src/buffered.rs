//! A port with a bounded buffer in front of another port.
use crate::channel::ChannelPort;
use crate::clock::clock_millis;
use crate::clock::now_millis;
use crate::error::PortError;
use crate::message::PortMessage;
use crate::port::answers;
use crate::port::names_itself;
use crate::port::AsyncPort;
use crate::stats::PortStats;
use std::collections::VecDeque;
use std::time::Duration;
use vstd::prelude::*;

verus! {

/// Overflow strategy for [`BufferedPort`].
#[derive(Debug, Clone, Copy, PartialEq, Eq, Structural)]
pub enum OverflowStrategy {
    /// Make room by giving up the oldest message.
    DropOldest,
    /// Give up the message that comes in.
    DropNewest,
    /// Turn the message away with an error.
    Refuse,
}

/// How far a receive or a poll got.
#[derive(Debug)]
pub enum BufferedStep {
    /// This is the result.
    Done(Result<Option<PortMessage>, PortError>),
    /// The wrapped port has to receive first.
    Receive,
    /// The wrapped port has to be polled first, for that long.
    Poll(Duration),
}

/// Wraps any port with a local buffer and overflow protection.
pub struct BufferedPort<P> {
    inner: P,
    buffer: VecDeque<PortMessage>,
    capacity: usize,
    strategy: OverflowStrategy,
    dropped: u64,
    stats: PortStats,
}

/// The state of a [`BufferedPort`].
#[verifier::reject_recursive_types(P)]
pub struct BufferedView<P> {
    pub inner: P,
    pub buffer: Seq<PortMessage>,
    pub capacity: usize,
    pub strategy: OverflowStrategy,
    pub dropped: u64,
    pub stats: PortStats,
}

/// How many messages a buffer holds at most: its capacity, except that a buffer that drops the
/// oldest message always keeps the newest.
pub open spec fn buffer_limit(capacity: usize, strategy: OverflowStrategy) -> nat {
    if capacity == 0 && strategy is DropOldest {
        1
    } else {
        capacity as nat
    }
}

impl<P> BufferedView<P> {
    /// The buffer is within its limit, and both counts of dropped messages agree.
    pub open spec fn well_formed(self) -> bool {
        &&& self.buffer.len() <= buffer_limit(self.capacity, self.strategy)
        &&& self.dropped == self.stats.dropped
    }

    /// Whether the buffer takes a further message without overflow.
    pub open spec fn has_room(self) -> bool {
        self.buffer.len() < self.capacity
    }

    /// Whether the counters that sending a message moves can still move.
    pub open spec fn can_count_send(self) -> bool {
        if self.has_room() {
            self.stats.sent < u64::MAX
        } else {
            match self.strategy {
                OverflowStrategy::DropOldest => self.stats.sent < u64::MAX && (self.buffer.len() > 0
                    ==> self.stats.dropped < u64::MAX),
                OverflowStrategy::DropNewest => self.stats.dropped < u64::MAX,
                OverflowStrategy::Refuse => self.stats.errors < u64::MAX,
            }
        }
    }

    /// How many messages making room by giving up the oldest loses: none where none is buffered.
    pub open spec fn oldest_count(self) -> int {
        if self.buffer.len() == 0 {
            0
        } else {
            1
        }
    }

    /// The state after sending `message` at `now`.
    pub open spec fn after_send(self, message: PortMessage, now: u64) -> BufferedView<P> {
        if self.has_room() {
            BufferedView {
                buffer: self.buffer.push(message),
                stats: PortStats {
                    sent: (self.stats.sent + 1) as u64,
                    last_activity: Some(now),
                    ..self.stats
                },
                ..self
            }
        } else {
            match self.strategy {
                OverflowStrategy::DropOldest => BufferedView {
                    buffer: self.buffer.push(message).skip(self.oldest_count()),
                    dropped: (self.dropped + self.oldest_count()) as u64,
                    stats: PortStats {
                        sent: (self.stats.sent + 1) as u64,
                        dropped: (self.stats.dropped + self.oldest_count()) as u64,
                        last_activity: Some(now),
                        ..self.stats
                    },
                    ..self
                },
                OverflowStrategy::DropNewest => BufferedView {
                    dropped: (self.dropped + 1) as u64,
                    stats: PortStats { dropped: (self.stats.dropped + 1) as u64, ..self.stats },
                    ..self
                },
                OverflowStrategy::Refuse => BufferedView {
                    stats: PortStats { errors: (self.stats.errors + 1) as u64, ..self.stats },
                    ..self
                },
            }
        }
    }

    /// What sending a message returns: an error only where the buffer overflows and refuses.
    pub open spec fn send_result(self) -> Result<(), PortError> {
        if !self.has_room() && self.strategy is Refuse {
            Err(PortError::Full)
        } else {
            Ok(())
        }
    }

    /// The state after counting a received message at `now`.
    pub open spec fn counting_receive(self, now: u64) -> BufferedView<P> {
        BufferedView {
            stats: PortStats {
                received: (self.stats.received + 1) as u64,
                last_activity: Some(now),
                ..self.stats
            },
            ..self
        }
    }

    /// The state after the oldest buffered message was taken at `now`.
    pub open spec fn after_take(self, now: u64) -> BufferedView<P> {
        BufferedView { buffer: self.buffer.skip(1), ..self.counting_receive(now) }
    }
}

impl<P> View for BufferedPort<P> {
    type V = BufferedView<P>;

    closed spec fn view(&self) -> BufferedView<P> {
        BufferedView {
            inner: self.inner,
            buffer: self.buffer@,
            capacity: self.capacity,
            strategy: self.strategy,
            dropped: self.dropped,
            stats: self.stats,
        }
    }
}

impl<P> BufferedPort<P> {
    /// A port with an empty buffer.
    pub fn new(inner: P, capacity: usize, strategy: OverflowStrategy) -> (r: Self)
        ensures
            r@ == (BufferedView {
                inner,
                buffer: Seq::empty(),
                capacity,
                strategy,
                dropped: 0,
                stats: PortStats::zero(),
            }),
            r@.well_formed(),
    {
        BufferedPort {
            inner,
            buffer: VecDeque::new(),
            capacity,
            strategy,
            dropped: 0,
            stats: PortStats::new(),
        }
    }

    /// Messages currently in the buffer.
    pub fn buffered_count(&self) -> (r: usize)
        ensures
            r == self@.buffer.len(),
    {
        self.buffer.len()
    }

    /// Total dropped due to overflow.
    pub fn dropped(&self) -> (r: u64)
        ensures
            r == self@.dropped,
    {
        self.dropped
    }

    /// Snapshot stats.
    pub fn stats(&self) -> (r: &PortStats)
        ensures
            *r == self@.stats,
    {
        &self.stats
    }

    /// Whether the counters that sending a message moves can still move.
    pub fn can_count_send(&self) -> (r: bool)
        ensures
            r == self@.can_count_send(),
    {
        if self.buffer.len() < self.capacity {
            return self.stats.sent < u64::MAX;
        }
        match self.strategy {
            OverflowStrategy::DropOldest => self.stats.sent < u64::MAX && (self.buffer.len() == 0
                || self.stats.dropped < u64::MAX),
            OverflowStrategy::DropNewest => self.stats.dropped < u64::MAX,
            OverflowStrategy::Refuse => self.stats.errors < u64::MAX,
        }
    }

    /// The wrapped port, to wait on.
    pub fn inner(&mut self) -> (r: &mut P)
        ensures
            *r == old(self)@.inner,
            final(self)@ == (BufferedView { inner: *final(r), ..old(self)@ }),
    {
        &mut self.inner
    }

    /// Puts `message` into the buffer at `now`. Where the buffer is full, its strategy decides
    /// what is given up.
    pub fn send_at(&mut self, message: PortMessage, now: u64) -> (r: Result<(), PortError>)
        requires
            old(self)@.well_formed(),
            old(self)@.can_count_send(),
        ensures
            final(self)@ == old(self)@.after_send(message, now),
            final(self)@.well_formed(),
            r == old(self)@.send_result(),
    {
        if self.buffer.len() < self.capacity {
            self.buffer.push_back(message);
            self.stats.sent = self.stats.sent + 1;
            self.stats.last_activity = Some(now);
            Ok(())
        } else {
            match self.strategy {
                OverflowStrategy::DropOldest => {
                    if self.buffer.pop_front().is_some() {
                        self.dropped = self.dropped + 1;
                        self.stats.dropped = self.stats.dropped + 1;
                    }
                    self.buffer.push_back(message);
                    self.stats.sent = self.stats.sent + 1;
                    self.stats.last_activity = Some(now);
                    assert(self.buffer@ =~= old(self)@.after_send(message, now).buffer);
                    Ok(())
                },
                OverflowStrategy::DropNewest => {
                    self.dropped = self.dropped + 1;
                    self.stats.dropped = self.stats.dropped + 1;
                    Ok(())
                },
                OverflowStrategy::Refuse => {
                    self.stats.errors = self.stats.errors + 1;
                    Err(PortError::Full)
                },
            }
        }
    }

    /// Puts `message` into the buffer. Where the buffer is full, its strategy decides what is
    /// given up.
    pub fn send(&mut self, message: PortMessage) -> (r: Result<(), PortError>)
        requires
            old(self)@.well_formed(),
            old(self)@.can_count_send(),
        ensures
            exists|now: u64| #[trigger]
                clock_millis(now) && final(self)@ == old(self)@.after_send(message, now),
            final(self)@.well_formed(),
            r == old(self)@.send_result(),
    {
        self.send_at(message, now_millis())
    }

    /// Takes the oldest message out of the buffer at `now`.
    fn take_at(&mut self, now: u64) -> (r: Option<PortMessage>)
        requires
            old(self)@.buffer.len() > 0 ==> old(self)@.stats.received < u64::MAX,
        ensures
            match r {
                Some(message) => old(self)@.buffer.len() > 0 && message == old(self)@.buffer[0]
                    && final(self)@ == old(self)@.after_take(now),
                None => old(self)@.buffer.len() == 0 && final(self)@ == old(self)@,
            },
    {
        match self.buffer.pop_front() {
            Some(message) => {
                self.stats.received = self.stats.received + 1;
                self.stats.last_activity = Some(now);
                assert(self.buffer@ =~= old(self)@.buffer.skip(1));
                Some(message)
            },
            None => None,
        }
    }

    /// Ends a receive at `now`, with what the wrapped port returned. Every success counts as
    /// received, even one without a message.
    pub fn finish_receive_at(
        &mut self,
        result: Result<Option<PortMessage>, PortError>,
        now: u64,
    ) -> (r: Result<Option<PortMessage>, PortError>)
        requires
            result is Ok ==> old(self)@.stats.received < u64::MAX,
        ensures
            r == result,
            final(self)@ == (if result is Ok {
                old(self)@.counting_receive(now)
            } else {
                old(self)@
            }),
    {
        if result.is_ok() {
            self.stats.received = self.stats.received + 1;
            self.stats.last_activity = Some(now);
        }
        result
    }

    /// Ends a receive, with what the wrapped port returned. Every success counts as received,
    /// even one without a message.
    pub fn finish_receive(&mut self, result: Result<Option<PortMessage>, PortError>) -> (r: Result<
        Option<PortMessage>,
        PortError,
    >)
        requires
            result is Ok ==> old(self)@.stats.received < u64::MAX,
        ensures
            r == result,
            exists|now: u64| #[trigger]
                clock_millis(now) && final(self)@ == (if result is Ok {
                    old(self)@.counting_receive(now)
                } else {
                    old(self)@
                }),
    {
        self.finish_receive_at(result, now_millis())
    }

    /// Ends a poll at `now`, with what the wrapped port returned. Only a message counts as
    /// received.
    pub fn finish_poll_at(
        &mut self,
        result: Result<Option<PortMessage>, PortError>,
        now: u64,
    ) -> (r: Result<Option<PortMessage>, PortError>)
        requires
            result matches Ok(Some(_)) ==> old(self)@.stats.received < u64::MAX,
        ensures
            r == result,
            final(self)@ == (if result matches Ok(Some(_)) {
                old(self)@.counting_receive(now)
            } else {
                old(self)@
            }),
    {
        if let Ok(Some(_)) = &result {
            self.stats.received = self.stats.received + 1;
            self.stats.last_activity = Some(now);
        }
        result
    }

    /// Ends a poll, with what the wrapped port returned. Only a message counts as received.
    pub fn finish_poll(&mut self, result: Result<Option<PortMessage>, PortError>) -> (r: Result<
        Option<PortMessage>,
        PortError,
    >)
        requires
            result matches Ok(Some(_)) ==> old(self)@.stats.received < u64::MAX,
        ensures
            r == result,
            exists|now: u64| #[trigger]
                clock_millis(now) && final(self)@ == (if result matches Ok(Some(_)) {
                    old(self)@.counting_receive(now)
                } else {
                    old(self)@
                }),
    {
        self.finish_poll_at(result, now_millis())
    }

    /// Starts to close: empties the buffer. What closing the wrapped port returns is the result.
    pub fn start_close(&mut self)
        ensures
            final(self)@ == (BufferedView { buffer: Seq::empty(), ..old(self)@ }),
            old(self)@.well_formed() ==> final(self)@.well_formed(),
    {
        self.buffer.clear();
    }
}

/// Whether `step` is how a receive or a poll starts on `before` at `now` and leaves `after`: the
/// oldest buffered message is the result; where nothing is buffered, the wrapped port has to
/// `wait` if it answers that it is active, and there is no message otherwise.
pub open spec fn starts<P: AsyncPort>(
    before: BufferedView<P>,
    now: u64,
    wait: BufferedStep,
    step: BufferedStep,
    after: BufferedView<P>,
) -> bool {
    if before.buffer.len() > 0 {
        &&& step == BufferedStep::Done(Ok(Some(before.buffer[0])))
        &&& after == before.after_take(now)
    } else {
        &&& exists|active: bool| #[trigger]
            answers(before.inner, active) && step == (if active {
                wait
            } else {
                BufferedStep::Done(Ok(None))
            })
        &&& after == before
    }
}

impl<P: AsyncPort> BufferedPort<P> {
    /// Starts to receive at `now`.
    pub fn start_receive_at(&mut self, now: u64) -> (r: BufferedStep)
        requires
            old(self)@.buffer.len() > 0 ==> old(self)@.stats.received < u64::MAX,
        ensures
            starts(old(self)@, now, BufferedStep::Receive, r, final(self)@),
            old(self)@.well_formed() ==> final(self)@.well_formed(),
    {
        match self.take_at(now) {
            Some(message) => BufferedStep::Done(Ok(Some(message))),
            None => {
                let active = self.inner.is_active();
                assert(answers(self@.inner, active));
                if active {
                    BufferedStep::Receive
                } else {
                    BufferedStep::Done(Ok(None))
                }
            },
        }
    }

    /// Starts to receive.
    pub fn start_receive(&mut self) -> (r: BufferedStep)
        requires
            old(self)@.buffer.len() > 0 ==> old(self)@.stats.received < u64::MAX,
        ensures
            exists|now: u64| #[trigger]
                clock_millis(now) && starts(
                    old(self)@,
                    now,
                    BufferedStep::Receive,
                    r,
                    final(self)@,
                ),
            old(self)@.well_formed() ==> final(self)@.well_formed(),
    {
        self.start_receive_at(now_millis())
    }

    /// Starts to poll at `now`.
    pub fn start_poll_at(&mut self, timeout: Duration, now: u64) -> (r: BufferedStep)
        requires
            old(self)@.buffer.len() > 0 ==> old(self)@.stats.received < u64::MAX,
        ensures
            starts(old(self)@, now, BufferedStep::Poll(timeout), r, final(self)@),
            old(self)@.well_formed() ==> final(self)@.well_formed(),
    {
        match self.take_at(now) {
            Some(message) => BufferedStep::Done(Ok(Some(message))),
            None => {
                let active = self.inner.is_active();
                assert(answers(self@.inner, active));
                if active {
                    BufferedStep::Poll(timeout)
                } else {
                    BufferedStep::Done(Ok(None))
                }
            },
        }
    }

    /// Starts to poll.
    pub fn start_poll(&mut self, timeout: Duration) -> (r: BufferedStep)
        requires
            old(self)@.buffer.len() > 0 ==> old(self)@.stats.received < u64::MAX,
        ensures
            exists|now: u64| #[trigger]
                clock_millis(now) && starts(
                    old(self)@,
                    now,
                    BufferedStep::Poll(timeout),
                    r,
                    final(self)@,
                ),
            old(self)@.well_formed() ==> final(self)@.well_formed(),
    {
        self.start_poll_at(timeout, now_millis())
    }
}

impl<P: AsyncPort> AsyncPort for BufferedPort<P> {
    /// Whether the wrapped port is active or messages are buffered.
    fn is_active(&self) -> (r: bool)
        ensures
            exists|active: bool| #[trigger]
                answers(self@.inner, active) && r == (active || self@.buffer.len() > 0),
    {
        let active = self.inner.is_active();
        assert(answers(self@.inner, active));
        active || self.buffer.len() > 0
    }

    /// The wrapped port's identifier.
    fn endpoint(&self) -> (r: &str)
        ensures
            names_itself(self@.inner, r),
    {
        self.inner.endpoint()
    }
}

/// The state after sending `messages` one after the other, at the times in `nows`.
pub open spec fn after_sends<P>(
    port: BufferedView<P>,
    messages: Seq<PortMessage>,
    nows: Seq<u64>,
) -> BufferedView<P>
    decreases messages.len(),
{
    if messages.len() == 0 {
        port
    } else {
        after_sends(port, messages.drop_last(), nows.drop_last()).after_send(
            messages.last(),
            nows.last(),
        )
    }
}

/// The state after taking messages out of the buffer at the times in `nows`.
pub open spec fn after_takes<P>(port: BufferedView<P>, nows: Seq<u64>) -> BufferedView<P>
    decreases nows.len(),
{
    if nows.len() == 0 {
        port
    } else {
        after_takes(port, nows.drop_last()).after_take(nows.last())
    }
}

/// By how much `count` messages exceed `limit`.
pub open spec fn excess(count: nat, limit: nat) -> nat {
    if count > limit {
        (count - limit) as nat
    } else {
        0
    }
}

/// A buffer never grows beyond its limit, the two counts of dropped messages never part, and
/// sending leaves the wrapped port and the way the buffer was set up alone.
pub proof fn law_send_keeps_buffer_bounded<P>(port: BufferedView<P>, message: PortMessage, now: u64)
    requires
        port.well_formed(),
    ensures
        port.after_send(message, now).well_formed(),
        port.after_send(message, now).inner == port.inner,
        port.after_send(message, now).capacity == port.capacity,
        port.after_send(message, now).strategy == port.strategy,
{
}

/// Receiving keeps the buffer within its limit and the two counts of dropped messages together,
/// whether the message comes out of the buffer or from the wrapped port.
pub proof fn law_receive_keeps_buffer_bounded<P>(port: BufferedView<P>, now: u64)
    requires
        port.well_formed(),
    ensures
        port.counting_receive(now).well_formed(),
        port.buffer.len() > 0 ==> port.after_take(now).well_formed(),
{
}

/// What can happen to a buffered port.
pub enum BufferedEvent {
    /// A message is sent at a time.
    Send(PortMessage, u64),
    /// The oldest buffered message, where there is one, is received or polled at a time.
    Take(u64),
    /// A message from the wrapped port is counted at a time.
    Count(u64),
    /// The port is closed.
    Close,
}

impl<P> BufferedView<P> {
    /// The state after `event`.
    pub open spec fn after_event(self, event: BufferedEvent) -> BufferedView<P> {
        match event {
            BufferedEvent::Send(message, now) => self.after_send(message, now),
            BufferedEvent::Take(now) => if self.buffer.len() > 0 {
                self.after_take(now)
            } else {
                self
            },
            BufferedEvent::Count(now) => self.counting_receive(now),
            BufferedEvent::Close => BufferedView { buffer: Seq::empty(), ..self },
        }
    }
}

/// The state after `events`, one after the other.
pub open spec fn after_events<P>(
    port: BufferedView<P>,
    events: Seq<BufferedEvent>,
) -> BufferedView<P>
    decreases events.len(),
{
    if events.len() == 0 {
        port
    } else {
        after_events(port, events.drop_last()).after_event(events.last())
    }
}

/// Whatever happens to a buffered port, and in whatever order, the buffer stays within its
/// limit, which is its capacity unless that is zero, and the two counts of dropped messages stay
/// together. How the buffer was set up does not change.
pub proof fn law_buffer_is_always_bounded<P>(port: BufferedView<P>, events: Seq<BufferedEvent>)
    requires
        port.well_formed(),
    ensures
        after_events(port, events).well_formed(),
        after_events(port, events).capacity == port.capacity,
        after_events(port, events).strategy == port.strategy,
        port.capacity > 0 ==> after_events(port, events).buffer.len() <= port.capacity,
    decreases events.len(),
{
    if events.len() > 0 {
        law_buffer_is_always_bounded(port, events.drop_last());
    }
}

/// The buffer grows by one message at most, and only by a send that stores its message without
/// giving up another.
pub proof fn law_buffer_grows_by_one_send<P>(port: BufferedView<P>, event: BufferedEvent)
    requires
        port.well_formed(),
    ensures
        port.after_event(event).buffer.len() <= port.buffer.len() + 1,
        port.after_event(event).buffer.len() > port.buffer.len() ==> event is Send
            && port.after_event(event).buffer == port.buffer.push(event->Send_0)
            && port.after_event(event).dropped == port.dropped,
{
    if let BufferedEvent::Send(message, _) = event {
        if port.after_event(event).buffer.len() > port.buffer.len() {
            assert(port.after_event(event).buffer =~= port.buffer.push(message));
        }
    }
}

/// A send loses no message without a count: the message it brings and those that were buffered
/// are afterwards buffered, counted as dropped, or counted as refused.
pub proof fn law_send_accounts_for_every_message<P>(
    port: BufferedView<P>,
    message: PortMessage,
    now: u64,
)
    requires
        port.well_formed(),
        port.can_count_send(),
    ensures
        ({
            let end = port.after_send(message, now);
            port.buffer.len() + 1 == end.buffer.len() + (end.dropped - port.dropped) + (
            end.stats.errors - port.stats.errors)
        }),
{
}

/// A buffer that drops the oldest messages holds, after any number of sends, the newest of all
/// messages, in order, up to its limit. Every send succeeds, and the messages in excess of the
/// limit, which are no longer there, are counted as dropped.
pub proof fn law_drop_oldest_keeps_the_newest<P>(
    port: BufferedView<P>,
    messages: Seq<PortMessage>,
    nows: Seq<u64>,
)
    requires
        port.well_formed(),
        port.strategy is DropOldest,
        nows.len() == messages.len(),
        port.stats.sent + messages.len() <= u64::MAX,
        port.stats.dropped + messages.len() <= u64::MAX,
    ensures
        ({
            let all = port.buffer + messages;
            let lost = excess(all.len(), buffer_limit(port.capacity, port.strategy));
            let end = after_sends(port, messages, nows);
            &&& end.buffer == all.skip(lost as int)
            &&& end.dropped == port.dropped + lost
            &&& end.stats.dropped == end.dropped
            &&& end.stats.sent == port.stats.sent + messages.len()
            &&& end.stats.errors == port.stats.errors
            &&& end.capacity == port.capacity
            &&& end.strategy == port.strategy
            &&& end.send_result() == Ok::<(), PortError>(())
        }),
    decreases messages.len(),
{
    let all = port.buffer + messages;
    let limit = buffer_limit(port.capacity, port.strategy);
    if messages.len() == 0 {
        assert(all =~= port.buffer);
        assert(all.skip(0) =~= all);
    } else {
        let fewer = messages.drop_last();
        law_drop_oldest_keeps_the_newest(port, fewer, nows.drop_last());
        let before = port.buffer + fewer;
        let end = after_sends(port, messages, nows);
        assert(all =~= before.push(messages.last()));
        assert(end.buffer =~= all.skip(excess(all.len(), limit) as int));
    }
}

/// A buffer that drops the newest messages holds, after any number of sends, the oldest of all
/// messages, in order, up to its capacity. Every send succeeds, and the messages in excess of
/// the capacity are counted as dropped, the others as sent.
pub proof fn law_drop_newest_keeps_the_oldest<P>(
    port: BufferedView<P>,
    messages: Seq<PortMessage>,
    nows: Seq<u64>,
)
    requires
        port.well_formed(),
        port.strategy is DropNewest,
        nows.len() == messages.len(),
        port.stats.sent + messages.len() <= u64::MAX,
        port.stats.dropped + messages.len() <= u64::MAX,
    ensures
        ({
            let all = port.buffer + messages;
            let end = after_sends(port, messages, nows);
            &&& end.buffer == all.take(all.len() - excess(all.len(), port.capacity as nat))
            &&& end.dropped == port.dropped + excess(all.len(), port.capacity as nat)
            &&& end.stats.dropped == end.dropped
            &&& end.stats.sent == port.stats.sent + messages.len() - excess(
                all.len(),
                port.capacity as nat,
            )
            &&& end.stats.errors == port.stats.errors
            &&& end.capacity == port.capacity
            &&& end.strategy == port.strategy
            &&& end.send_result() == Ok::<(), PortError>(())
        }),
    decreases messages.len(),
{
    let all = port.buffer + messages;
    if messages.len() == 0 {
        assert(all =~= port.buffer);
        assert(all.take(all.len() as int) =~= all);
    } else {
        let fewer = messages.drop_last();
        law_drop_newest_keeps_the_oldest(port, fewer, nows.drop_last());
        let before = port.buffer + fewer;
        let end = after_sends(port, messages, nows);
        assert(all =~= before.push(messages.last()));
        assert(end.buffer =~= all.take(all.len() - excess(all.len(), port.capacity as nat)));
    }
}

/// A buffer that refuses holds, after any number of sends, the oldest of all messages, in order,
/// up to its capacity. It drops nothing: a send fails with `Full` exactly when the messages
/// before it fill the buffer, and every such failure is counted as an error.
pub proof fn law_refuse_turns_away_the_excess<P>(
    port: BufferedView<P>,
    messages: Seq<PortMessage>,
    nows: Seq<u64>,
)
    requires
        port.well_formed(),
        port.strategy is Refuse,
        nows.len() == messages.len(),
        port.stats.sent + messages.len() <= u64::MAX,
        port.stats.errors + messages.len() <= u64::MAX,
    ensures
        ({
            let all = port.buffer + messages;
            let end = after_sends(port, messages, nows);
            &&& end.buffer == all.take(all.len() - excess(all.len(), port.capacity as nat))
            &&& end.stats.errors == port.stats.errors + excess(all.len(), port.capacity as nat)
            &&& end.stats.sent == port.stats.sent + messages.len() - excess(
                all.len(),
                port.capacity as nat,
            )
            &&& end.dropped == port.dropped
            &&& end.stats.dropped == port.stats.dropped
            &&& end.capacity == port.capacity
            &&& end.strategy == port.strategy
            &&& end.send_result() == (if all.len() < port.capacity {
                Ok::<(), PortError>(())
            } else {
                Err(PortError::Full)
            })
        }),
    decreases messages.len(),
{
    let all = port.buffer + messages;
    if messages.len() == 0 {
        assert(all =~= port.buffer);
        assert(all.take(all.len() as int) =~= all);
    } else {
        let fewer = messages.drop_last();
        law_refuse_turns_away_the_excess(port, fewer, nows.drop_last());
        let before = port.buffer + fewer;
        let end = after_sends(port, messages, nows);
        assert(all =~= before.push(messages.last()));
        assert(end.buffer =~= all.take(all.len() - excess(all.len(), port.capacity as nat)));
    }
}

/// What is buffered comes out in the order in which it went in: after any number of receives
/// that the buffer can serve, the messages that came first are gone, the next one to come out is
/// the oldest of the others, and each receive is counted.
pub proof fn law_buffer_is_first_in_first_out<P>(port: BufferedView<P>, nows: Seq<u64>)
    requires
        nows.len() <= port.buffer.len(),
        port.stats.received + nows.len() <= u64::MAX,
    ensures
        ({
            let end = after_takes(port, nows);
            &&& end.buffer == port.buffer.skip(nows.len() as int)
            &&& nows.len() < port.buffer.len() ==> end.buffer[0] == port.buffer[nows.len() as int]
            &&& end.stats.received == port.stats.received + nows.len()
            &&& end.inner == port.inner
            &&& end.dropped == port.dropped
        }),
    decreases nows.len(),
{
    if nows.len() == 0 {
        assert(port.buffer.skip(0) =~= port.buffer);
    } else {
        law_buffer_is_first_in_first_out(port, nows.drop_last());
        assert(after_takes(port, nows).buffer =~= port.buffer.skip(nows.len() as int));
    }
}

/// A message sent to an empty buffer with room is the one that the next receive or poll gives,
/// and the buffer is then empty again.
pub proof fn law_send_then_take_gives_the_message<P: AsyncPort>(
    port: BufferedView<P>,
    message: PortMessage,
    sent_at: u64,
    received_at: u64,
    wait: BufferedStep,
    step: BufferedStep,
    end: BufferedView<P>,
)
    requires
        port.buffer.len() == 0,
        port.has_room(),
        starts(port.after_send(message, sent_at), received_at, wait, step, end),
    ensures
        port.send_result() == Ok::<(), PortError>(()),
        step == BufferedStep::Done(Ok(Some(message))),
        end.buffer == Seq::<PortMessage>::empty(),
{
    assert(end.buffer =~= Seq::<PortMessage>::empty());
}

proof fn lemma_sends_with_room<P>(
    port: BufferedView<P>,
    messages: Seq<PortMessage>,
    nows: Seq<u64>,
)
    requires
        port.buffer.len() == 0,
        messages.len() <= port.capacity,
        nows.len() == messages.len(),
        port.stats.sent + messages.len() <= u64::MAX,
    ensures
        ({
            let end = after_sends(port, messages, nows);
            &&& end.buffer == messages
            &&& end.stats.sent == port.stats.sent + messages.len()
            &&& end.stats.received == port.stats.received
            &&& end.stats.dropped == port.stats.dropped
            &&& end.stats.errors == port.stats.errors
            &&& end.dropped == port.dropped
            &&& end.inner == port.inner
            &&& end.capacity == port.capacity
        }),
    decreases messages.len(),
{
    if messages.len() > 0 {
        lemma_sends_with_room(port, messages.drop_last(), nows.drop_last());
        assert(after_sends(port, messages, nows).buffer =~= messages);
    } else {
        assert(port.buffer =~= messages);
    }
}

proof fn lemma_takes_leave_the_rest<P>(port: BufferedView<P>, nows: Seq<u64>)
    ensures
        after_takes(port, nows).stats.sent == port.stats.sent,
        after_takes(port, nows).stats.dropped == port.stats.dropped,
        after_takes(port, nows).stats.errors == port.stats.errors,
    decreases nows.len(),
{
    if nows.len() > 0 {
        lemma_takes_leave_the_rest(port, nows.drop_last());
    }
}

/// Whatever the overflow strategy, as many messages as an empty buffer has room for come out as
/// they went in: every send succeeds, each receive or poll after that gives the next message, in
/// order and without waiting, and in the end the buffer is empty again. All of them are counted
/// as sent and as received, none as dropped, and the wrapped port has no part in it.
pub proof fn law_messages_sent_come_out_in_order<P: AsyncPort>(
    port: BufferedView<P>,
    messages: Seq<PortMessage>,
    sent_at: Seq<u64>,
    received_at: Seq<u64>,
    wait: BufferedStep,
)
    requires
        port.buffer.len() == 0,
        messages.len() <= port.capacity,
        sent_at.len() == messages.len(),
        received_at.len() == messages.len(),
        port.stats.sent + messages.len() <= u64::MAX,
        port.stats.received + messages.len() <= u64::MAX,
    ensures
        forall|i: int|
            0 <= i < messages.len() ==> (#[trigger] after_sends(
                port,
                messages.take(i),
                sent_at.take(i),
            )).send_result() == Ok::<(), PortError>(()),
        ({
            let full = after_sends(port, messages, sent_at);
            let end = after_takes(full, received_at);
            &&& full.buffer == messages
            &&& forall|i: int|
                0 <= i < messages.len() ==> starts(
                    #[trigger] after_takes(full, received_at.take(i)),
                    received_at[i],
                    wait,
                    BufferedStep::Done(Ok(Some(messages[i]))),
                    after_takes(full, received_at.take(i + 1)),
                )
            &&& end.buffer == Seq::<PortMessage>::empty()
            &&& end.dropped == port.dropped
            &&& end.stats.dropped == port.stats.dropped
            &&& end.stats.errors == port.stats.errors
            &&& end.stats.sent == port.stats.sent + messages.len()
            &&& end.stats.received == port.stats.received + messages.len()
            &&& end.inner == port.inner
        }),
{
    let full = after_sends(port, messages, sent_at);
    lemma_sends_with_room(port, messages, sent_at);
    lemma_takes_leave_the_rest(full, received_at);
    law_buffer_is_first_in_first_out(full, received_at);
    assert(messages.skip(messages.len() as int) =~= Seq::<PortMessage>::empty());
    assert forall|i: int| 0 <= i < messages.len() implies (#[trigger] after_sends(
        port,
        messages.take(i),
        sent_at.take(i),
    )).send_result() == Ok::<(), PortError>(()) by {
        lemma_sends_with_room(port, messages.take(i), sent_at.take(i));
    }
    assert forall|i: int| 0 <= i < messages.len() implies starts(
        #[trigger] after_takes(full, received_at.take(i)),
        received_at[i],
        wait,
        BufferedStep::Done(Ok(Some(messages[i]))),
        after_takes(full, received_at.take(i + 1)),
    ) by {
        law_buffer_is_first_in_first_out(full, received_at.take(i));
        assert(received_at.take(i + 1).drop_last() =~= received_at.take(i));
    }
}

/// Where a message is buffered, polling, for however long, does what receiving does: it gives
/// the oldest message and asks nothing of the wrapped port.
pub proof fn law_poll_takes_what_receive_takes<P: AsyncPort>(
    port: BufferedView<P>,
    now: u64,
    timeout: Duration,
    polled: BufferedStep,
    after_polling: BufferedView<P>,
    received: BufferedStep,
    after_receiving: BufferedView<P>,
)
    requires
        port.buffer.len() > 0,
        starts(port, now, BufferedStep::Poll(timeout), polled, after_polling),
        starts(port, now, BufferedStep::Receive, received, after_receiving),
    ensures
        polled == BufferedStep::Done(Ok(Some(port.buffer[0]))),
        received == polled,
        after_receiving == after_polling,
        after_polling.buffer == port.buffer.skip(1),
{
}

/// With nothing buffered and a wrapped port that is not active, receiving and polling give no
/// message and no error at once, and change nothing.
pub proof fn law_idle_buffer_gives_nothing<P: AsyncPort>(
    port: BufferedView<P>,
    now: u64,
    wait: BufferedStep,
    step: BufferedStep,
    end: BufferedView<P>,
)
    requires
        port.buffer.len() == 0,
        !answers(port.inner, true),
        starts(port, now, wait, step, end),
    ensures
        step == BufferedStep::Done(Ok(None)),
        end == port,
{
}

/// A buffered channel port is active exactly when the channel port is or messages wait in the
/// buffer, and goes by the channel port's name.
pub proof fn law_buffered_channel_follows_the_channel(
    port: BufferedPort<ChannelPort>,
    active: bool,
    name: &str,
)
    requires
        answers(port, active),
        names_itself(port, name),
    ensures
        active <==> port@.inner@.active || port@.buffer.len() > 0,
        name@ == port@.inner@.name,
{
}

/// A new buffered port wraps the given port and is set up as it was told; nothing is buffered
/// and nothing is counted.
pub proof fn law_new_buffer_is_empty<P>(
    inner: P,
    capacity: usize,
    strategy: OverflowStrategy,
    r: BufferedPort<P>,
)
    requires
        call_ensures(BufferedPort::<P>::new, (inner, capacity, strategy), r),
    ensures
        r@.inner == inner,
        r@.capacity == capacity,
        r@.strategy == strategy,
        r@.buffer.len() == 0,
        r@.dropped == 0,
        r@.stats == (PortStats {
            sent: 0,
            received: 0,
            dropped: 0,
            errors: 0,
            last_activity: None,
        }),
{
}

/// What a buffered port answers is what it is: how many messages are buffered, how many it
/// dropped, and what it counted.
pub proof fn law_buffered_port_answers_for_itself<P>(
    port: BufferedPort<P>,
    buffered: usize,
    dropped: u64,
    stats: &PortStats,
)
    requires
        call_ensures(BufferedPort::<P>::buffered_count, (&port,), buffered),
        call_ensures(BufferedPort::<P>::dropped, (&port,), dropped),
        call_ensures(BufferedPort::<P>::stats, (&port,), stats),
    ensures
        buffered == port@.buffer.len(),
        dropped == port@.dropped,
        *stats == port@.stats,
{
}

/// What becomes of the wrapped port while it is lent out becomes of the buffered port, and
/// nothing else does.
pub proof fn law_wrapped_port_is_lent_in_place<P>(port: &mut BufferedPort<P>, inner: &mut P)
    requires
        call_ensures(BufferedPort::<P>::inner, (port,), inner),
    ensures
        *old(inner) == old(port)@.inner,
        *final(inner) == final(port)@.inner,
        final(port)@.buffer == old(port)@.buffer,
        final(port)@.capacity == old(port)@.capacity,
        final(port)@.strategy == old(port)@.strategy,
        final(port)@.dropped == old(port)@.dropped,
        final(port)@.stats == old(port)@.stats,
{
}

/// Where fewer messages are buffered than the capacity says, a send succeeds whatever the
/// strategy, and puts the very message behind those that are there. It counts as sent, at the
/// time of the send, and nothing else changes.
pub proof fn law_send_with_room_stores_the_message<P>(
    port: &mut BufferedPort<P>,
    message: PortMessage,
    now: u64,
    r: Result<(), PortError>,
)
    requires
        call_ensures(BufferedPort::<P>::send_at, (port, message, now), r) || call_ensures(
            BufferedPort::<P>::send,
            (port, message),
            r,
        ),
        old(port)@.buffer.len() < old(port)@.capacity,
        old(port)@.stats.sent < u64::MAX,
    ensures
        r == Ok::<(), PortError>(()),
        final(port)@.buffer == old(port)@.buffer.push(message),
        final(port)@.stats.sent == old(port)@.stats.sent + 1,
        call_ensures(BufferedPort::<P>::send_at, (port, message, now), r)
            ==> final(port)@.stats.last_activity == Some(now),
        call_ensures(BufferedPort::<P>::send, (port, message), r)
            ==> (final(port)@.stats.last_activity matches Some(t) && clock_millis(t)),
        final(port)@.stats.received == old(port)@.stats.received,
        final(port)@.stats.dropped == old(port)@.stats.dropped,
        final(port)@.stats.errors == old(port)@.stats.errors,
        final(port)@.dropped == old(port)@.dropped,
        final(port)@.inner == old(port)@.inner,
        final(port)@.capacity == old(port)@.capacity,
        final(port)@.strategy == old(port)@.strategy,
{
}

/// Where no room is left, a send that drops the oldest succeeds: the very message comes last,
/// the first one leaves, and the others keep their places among themselves. The message counts
/// as sent, at the time of the send; the one that left, if there was one, counts as dropped, and
/// nothing else changes.
pub proof fn law_full_buffer_gives_up_the_oldest<P>(
    port: &mut BufferedPort<P>,
    message: PortMessage,
    now: u64,
    r: Result<(), PortError>,
)
    requires
        call_ensures(BufferedPort::<P>::send_at, (port, message, now), r) || call_ensures(
            BufferedPort::<P>::send,
            (port, message),
            r,
        ),
        old(port)@.buffer.len() >= old(port)@.capacity,
        old(port)@.strategy is DropOldest,
        old(port)@.stats.sent < u64::MAX,
        old(port)@.buffer.len() > 0 ==> old(port)@.stats.dropped < u64::MAX,
        old(port)@.buffer.len() > 0 ==> old(port)@.dropped < u64::MAX,
    ensures
        r == Ok::<(), PortError>(()),
        final(port)@.buffer.last() == message,
        old(port)@.buffer.len() == 0 ==> final(port)@.buffer.len() == 1 && final(port)@.dropped
            == old(port)@.dropped && final(port)@.stats.dropped == old(port)@.stats.dropped,
        old(port)@.buffer.len() > 0 ==> {
            &&& final(port)@.buffer.drop_last() == old(port)@.buffer.drop_first()
            &&& final(port)@.dropped == old(port)@.dropped + 1
            &&& final(port)@.stats.dropped == old(port)@.stats.dropped + 1
        },
        final(port)@.buffer.len() > 0,
        final(port)@.stats.sent == old(port)@.stats.sent + 1,
        call_ensures(BufferedPort::<P>::send_at, (port, message, now), r)
            ==> final(port)@.stats.last_activity == Some(now),
        call_ensures(BufferedPort::<P>::send, (port, message), r)
            ==> (final(port)@.stats.last_activity matches Some(t) && clock_millis(t)),
        final(port)@.stats.received == old(port)@.stats.received,
        final(port)@.stats.errors == old(port)@.stats.errors,
        final(port)@.inner == old(port)@.inner,
        final(port)@.capacity == old(port)@.capacity,
        final(port)@.strategy == old(port)@.strategy,
{
    if old(port)@.buffer.len() > 0 {
        assert(final(port)@.buffer.drop_last() =~= old(port)@.buffer.drop_first());
    }
}

/// Where no room is left, a send that drops the newest succeeds and counts its message as
/// dropped. Nothing else changes: what is buffered stays, and nothing counts as sent.
pub proof fn law_full_buffer_gives_up_the_newest<P>(
    port: &mut BufferedPort<P>,
    message: PortMessage,
    now: u64,
    r: Result<(), PortError>,
)
    requires
        call_ensures(BufferedPort::<P>::send_at, (port, message, now), r) || call_ensures(
            BufferedPort::<P>::send,
            (port, message),
            r,
        ),
        old(port)@.buffer.len() >= old(port)@.capacity,
        old(port)@.strategy is DropNewest,
        old(port)@.stats.dropped < u64::MAX,
        old(port)@.dropped < u64::MAX,
    ensures
        r == Ok::<(), PortError>(()),
        final(port)@.buffer == old(port)@.buffer,
        final(port)@.dropped == old(port)@.dropped + 1,
        final(port)@.stats.dropped == old(port)@.stats.dropped + 1,
        final(port)@.stats.sent == old(port)@.stats.sent,
        final(port)@.stats.received == old(port)@.stats.received,
        final(port)@.stats.errors == old(port)@.stats.errors,
        final(port)@.stats.last_activity == old(port)@.stats.last_activity,
        final(port)@.inner == old(port)@.inner,
        final(port)@.capacity == old(port)@.capacity,
        final(port)@.strategy == old(port)@.strategy,
{
}

/// Where no room is left, a send that refuses fails with `Full` and counts an error. Nothing else
/// changes: what is buffered stays, and nothing counts as sent or dropped.
pub proof fn law_full_buffer_refuses<P>(
    port: &mut BufferedPort<P>,
    message: PortMessage,
    now: u64,
    r: Result<(), PortError>,
)
    requires
        call_ensures(BufferedPort::<P>::send_at, (port, message, now), r) || call_ensures(
            BufferedPort::<P>::send,
            (port, message),
            r,
        ),
        old(port)@.buffer.len() >= old(port)@.capacity,
        old(port)@.strategy is Refuse,
        old(port)@.stats.errors < u64::MAX,
    ensures
        r == Err::<(), PortError>(PortError::Full),
        final(port)@.buffer == old(port)@.buffer,
        final(port)@.dropped == old(port)@.dropped,
        final(port)@.stats.dropped == old(port)@.stats.dropped,
        final(port)@.stats.sent == old(port)@.stats.sent,
        final(port)@.stats.received == old(port)@.stats.received,
        final(port)@.stats.errors == old(port)@.stats.errors + 1,
        final(port)@.stats.last_activity == old(port)@.stats.last_activity,
        final(port)@.inner == old(port)@.inner,
        final(port)@.capacity == old(port)@.capacity,
        final(port)@.strategy == old(port)@.strategy,
{
}

/// A send can be counted exactly when none of the counters that it moves is full: with room, that
/// of the messages sent; without, the one that goes with the strategy, and where the oldest is
/// dropped, both.
pub proof fn law_send_is_counted_within_bounds<P>(port: BufferedPort<P>, r: bool)
    requires
        call_ensures(BufferedPort::<P>::can_count_send, (&port,), r),
    ensures
        port@.buffer.len() < port@.capacity ==> (r <==> port@.stats.sent < u64::MAX),
        port@.buffer.len() >= port@.capacity && port@.strategy is DropOldest ==> (r
            <==> port@.stats.sent < u64::MAX && (port@.buffer.len() == 0 || port@.stats.dropped
            < u64::MAX)),
        port@.buffer.len() >= port@.capacity && port@.strategy is DropNewest ==> (r
            <==> port@.stats.dropped < u64::MAX),
        port@.buffer.len() >= port@.capacity && port@.strategy is Refuse ==> (r
            <==> port@.stats.errors < u64::MAX),
{
}

/// Where messages are buffered, receiving and polling give the very first of them at once,
/// whatever the wrapped port is, the strategy and the timeout. It leaves the buffer, the others
/// stay in order, and it counts as received, at that time; nothing else changes.
pub proof fn law_oldest_buffered_message_comes_first<P: AsyncPort>(
    port: &mut BufferedPort<P>,
    timeout: Duration,
    now: u64,
    step: BufferedStep,
)
    requires
        ({
            ||| call_ensures(BufferedPort::<P>::start_receive_at, (port, now), step)
            ||| call_ensures(BufferedPort::<P>::start_receive, (port,), step)
            ||| call_ensures(BufferedPort::<P>::start_poll_at, (port, timeout, now), step)
            ||| call_ensures(BufferedPort::<P>::start_poll, (port, timeout), step)
        }),
        old(port)@.buffer.len() > 0,
        old(port)@.stats.received < u64::MAX,
    ensures
        step == BufferedStep::Done(Ok(Some(old(port)@.buffer.first()))),
        final(port)@.buffer == old(port)@.buffer.drop_first(),
        final(port)@.stats.received == old(port)@.stats.received + 1,
        call_ensures(BufferedPort::<P>::start_receive_at, (port, now), step)
            ==> final(port)@.stats.last_activity == Some(now),
        call_ensures(BufferedPort::<P>::start_poll_at, (port, timeout, now), step)
            ==> final(port)@.stats.last_activity == Some(now),
        call_ensures(BufferedPort::<P>::start_receive, (port,), step)
            ==> (final(port)@.stats.last_activity matches Some(t) && clock_millis(t)),
        call_ensures(BufferedPort::<P>::start_poll, (port, timeout), step)
            ==> (final(port)@.stats.last_activity matches Some(t) && clock_millis(t)),
        final(port)@.stats.sent == old(port)@.stats.sent,
        final(port)@.stats.dropped == old(port)@.stats.dropped,
        final(port)@.stats.errors == old(port)@.stats.errors,
        final(port)@.dropped == old(port)@.dropped,
        final(port)@.inner == old(port)@.inner,
        final(port)@.capacity == old(port)@.capacity,
        final(port)@.strategy == old(port)@.strategy,
{
    assert(final(port)@.buffer =~= old(port)@.buffer.drop_first());
}

/// Where nothing is buffered and the wrapped port answers only that it is active, receiving has
/// to receive from it and polling has to poll it for the given time, whatever the strategy, the
/// capacity and the counts; nothing changes before that.
pub proof fn law_active_wrapped_port_is_asked<P: AsyncPort>(
    port: &mut BufferedPort<P>,
    timeout: Duration,
    now: u64,
    step: BufferedStep,
)
    requires
        ({
            ||| call_ensures(BufferedPort::<P>::start_receive_at, (port, now), step)
            ||| call_ensures(BufferedPort::<P>::start_receive, (port,), step)
            ||| call_ensures(BufferedPort::<P>::start_poll_at, (port, timeout, now), step)
            ||| call_ensures(BufferedPort::<P>::start_poll, (port, timeout), step)
        }),
        old(port)@.buffer.len() == 0,
        !call_ensures(P::is_active, (&old(port)@.inner,), false),
    ensures
        call_ensures(BufferedPort::<P>::start_receive_at, (port, now), step) ==> step
            == BufferedStep::Receive,
        call_ensures(BufferedPort::<P>::start_receive, (port,), step) ==> step
            == BufferedStep::Receive,
        call_ensures(BufferedPort::<P>::start_poll_at, (port, timeout, now), step) ==> step
            == BufferedStep::Poll(timeout),
        call_ensures(BufferedPort::<P>::start_poll, (port, timeout), step) ==> step
            == BufferedStep::Poll(timeout),
        final(port)@ == old(port)@,
{
    assert(!answers(old(port)@.inner, false));
}

/// Where nothing is buffered and the wrapped port answers only that it is not active, receiving
/// and polling give nothing and no error at once, and nothing changes.
pub proof fn law_inactive_wrapped_port_is_not_asked<P: AsyncPort>(
    port: &mut BufferedPort<P>,
    timeout: Duration,
    now: u64,
    step: BufferedStep,
)
    requires
        ({
            ||| call_ensures(BufferedPort::<P>::start_receive_at, (port, now), step)
            ||| call_ensures(BufferedPort::<P>::start_receive, (port,), step)
            ||| call_ensures(BufferedPort::<P>::start_poll_at, (port, timeout, now), step)
            ||| call_ensures(BufferedPort::<P>::start_poll, (port, timeout), step)
        }),
        old(port)@.buffer.len() == 0,
        !call_ensures(P::is_active, (&old(port)@.inner,), true),
    ensures
        step == BufferedStep::Done(Ok(None)),
        final(port)@ == old(port)@,
{
    assert(!answers(old(port)@.inner, true));
}

/// A receive that the wrapped port had to serve gives exactly what the wrapped port returned. It
/// counts as received, at that time, wherever the wrapped port succeeded, even without a
/// message; nothing else changes.
pub proof fn law_receive_hands_on_what_the_wrapped_port_gave<P>(
    port: &mut BufferedPort<P>,
    result: Result<Option<PortMessage>, PortError>,
    now: u64,
    r: Result<Option<PortMessage>, PortError>,
)
    requires
        call_ensures(BufferedPort::<P>::finish_receive_at, (port, result, now), r) || call_ensures(
            BufferedPort::<P>::finish_receive,
            (port, result),
            r,
        ),
        result is Ok ==> old(port)@.stats.received < u64::MAX,
    ensures
        r == result,
        final(port)@.stats.received - old(port)@.stats.received == (if result is Ok {
            1int
        } else {
            0int
        }),
        result is Ok && call_ensures(BufferedPort::<P>::finish_receive_at, (port, result, now), r)
            ==> final(port)@.stats.last_activity == Some(now),
        result is Ok && call_ensures(BufferedPort::<P>::finish_receive, (port, result), r) ==> (
        final(port)@.stats.last_activity matches Some(t) && clock_millis(t)),
        result is Err ==> final(port)@.stats.last_activity == old(port)@.stats.last_activity,
        final(port)@.stats.sent == old(port)@.stats.sent,
        final(port)@.stats.dropped == old(port)@.stats.dropped,
        final(port)@.stats.errors == old(port)@.stats.errors,
        final(port)@.buffer == old(port)@.buffer,
        final(port)@.dropped == old(port)@.dropped,
        final(port)@.inner == old(port)@.inner,
        final(port)@.capacity == old(port)@.capacity,
        final(port)@.strategy == old(port)@.strategy,
{
}

/// A poll that the wrapped port had to serve gives exactly what the wrapped port returned. It
/// counts as received, at that time, only where there was a message; nothing else changes.
pub proof fn law_poll_hands_on_what_the_wrapped_port_gave<P>(
    port: &mut BufferedPort<P>,
    result: Result<Option<PortMessage>, PortError>,
    now: u64,
    r: Result<Option<PortMessage>, PortError>,
)
    requires
        call_ensures(BufferedPort::<P>::finish_poll_at, (port, result, now), r) || call_ensures(
            BufferedPort::<P>::finish_poll,
            (port, result),
            r,
        ),
        result matches Ok(Some(_)) ==> old(port)@.stats.received < u64::MAX,
    ensures
        r == result,
        final(port)@.stats.received - old(port)@.stats.received == (if result matches Ok(
            Some(_),
        ) {
            1int
        } else {
            0int
        }),
        (result matches Ok(Some(_))) && call_ensures(
            BufferedPort::<P>::finish_poll_at,
            (port, result, now),
            r,
        ) ==> final(port)@.stats.last_activity == Some(now),
        (result matches Ok(Some(_))) && call_ensures(
            BufferedPort::<P>::finish_poll,
            (port, result),
            r,
        ) ==> (final(port)@.stats.last_activity matches Some(t) && clock_millis(t)),
        !(result matches Ok(Some(_)))
            ==> final(port)@.stats.last_activity == old(port)@.stats.last_activity,
        final(port)@.stats.sent == old(port)@.stats.sent,
        final(port)@.stats.dropped == old(port)@.stats.dropped,
        final(port)@.stats.errors == old(port)@.stats.errors,
        final(port)@.buffer == old(port)@.buffer,
        final(port)@.dropped == old(port)@.dropped,
        final(port)@.inner == old(port)@.inner,
        final(port)@.capacity == old(port)@.capacity,
        final(port)@.strategy == old(port)@.strategy,
{
}

/// Closing gives up what is buffered before the wrapped port is closed, and touches nothing else.
pub proof fn law_close_empties_the_buffer<P>(port: &mut BufferedPort<P>)
    requires
        call_ensures(BufferedPort::<P>::start_close, (port,), ()),
    ensures
        final(port)@.buffer.len() == 0,
        final(port)@.inner == old(port)@.inner,
        final(port)@.capacity == old(port)@.capacity,
        final(port)@.strategy == old(port)@.strategy,
        final(port)@.dropped == old(port)@.dropped,
        final(port)@.stats == old(port)@.stats,
{
}

/// A buffered port is active as long as messages are buffered, and otherwise answers as the
/// wrapped port does. It goes by the wrapped port's name.
pub proof fn law_buffered_port_follows_the_wrapped_port<P: AsyncPort>(
    port: BufferedPort<P>,
    active: bool,
    name: &str,
)
    requires
        call_ensures(<BufferedPort<P> as AsyncPort>::is_active, (&port,), active),
        call_ensures(<BufferedPort<P> as AsyncPort>::endpoint, (&port,), name),
    ensures
        port@.buffer.len() > 0 ==> active,
        port@.buffer.len() == 0 ==> call_ensures(P::is_active, (&port@.inner,), active),
        call_ensures(P::endpoint, (&port@.inner,), name),
{
    assert(names_itself(port@.inner, name));
    let inner = choose|inner: bool| #[trigger]
        answers(port@.inner, inner) && active == (inner || port@.buffer.len() > 0);
    assert(answers(port@.inner, inner));
}

} // verus!
