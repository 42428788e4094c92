//! A port that sends every message to all of its subscribers.
use crate::channel::connected;
use crate::clock::clock_millis;
use crate::clock::now_millis;
use crate::error::PortError;
use crate::message::converts_to;
use crate::message::MessageView;
use crate::message::PortMessage;
use crate::outlet::given_back;
use crate::outlet::offered;
use crate::outlet::sender_of;
use crate::outlet::taken;
use crate::outlet::Delivery;
use crate::outlet::Outlet;
use crate::port::AsyncPort;
use crate::stats::PortStats;
use std::time::Duration;
use tokio::sync::mpsc;
use vstd::prelude::*;

verus! {

/// How many messages wait for a subscriber at most.
pub const SUB_CAPACITY: usize = 256;

/// The subscribers that stay: all but those that are gone, in their order.
pub open spec fn kept(
    subscribers: Seq<Outlet>,
    deliveries: Seq<Delivery>,
) -> Seq<Outlet>
    decreases subscribers.len(),
{
    if subscribers.len() == 0 {
        Seq::empty()
    } else {
        let rest = kept(subscribers.drop_last(), deliveries.drop_last());
        if deliveries.last() is Gone {
            rest
        } else {
            rest.push(subscribers.last())
        }
    }
}

/// How many subscribers were reached.
pub open spec fn reached(deliveries: Seq<Delivery>) -> nat
    decreases deliveries.len(),
{
    if deliveries.len() == 0 {
        0
    } else {
        reached(deliveries.drop_last()) + if deliveries.last() is Sent {
            1nat
        } else {
            0nat
        }
    }
}

/// How many subscribers missed the message because their channel was full.
pub open spec fn missed(deliveries: Seq<Delivery>) -> nat
    decreases deliveries.len(),
{
    if deliveries.len() == 0 {
        0
    } else {
        missed(deliveries.drop_last()) + if deliveries.last() is Full {
            1nat
        } else {
            0nat
        }
    }
}

/// Fan-out port: messages sent here are broadcast to all subscribers.
pub struct BroadcastPort {
    subscribers: Vec<Outlet>,
    endpoint_name: String,
    active: bool,
    stats: PortStats,
}

/// The state of a [`BroadcastPort`].
pub struct BroadcastView {
    pub subscribers: Seq<Outlet>,
    pub name: Seq<char>,
    pub active: bool,
    pub stats: PortStats,
}

impl BroadcastView {
    /// Whether `deliveries` can be those of a broadcast, and the counters can take them in.
    pub open spec fn can_settle(self, deliveries: Seq<Delivery>) -> bool {
        &&& deliveries.len() == self.subscribers.len()
        &&& self.stats.sent + reached(deliveries) <= u64::MAX
        &&& self.stats.dropped + missed(deliveries) <= u64::MAX
    }

    /// Whether offering `message` to every subscriber may come to `deliveries` and leave the
    /// outlets in `after`.
    pub open spec fn offers(
        self,
        message: MessageView,
        deliveries: Seq<Delivery>,
        after: Seq<Outlet>,
    ) -> bool {
        &&& deliveries.len() == self.subscribers.len()
        &&& after.len() == self.subscribers.len()
        &&& forall|i: int|
            0 <= i < deliveries.len() ==> offered(
                self.subscribers[i],
                message,
                #[trigger] deliveries[i],
                after[i],
            )
    }

    /// The same state with the outlets in `after`.
    pub open spec fn with_outlets(self, after: Seq<Outlet>) -> BroadcastView {
        BroadcastView { subscribers: after, ..self }
    }

    /// The state after a broadcast at `now`, given what it came to for each subscriber.
    pub open spec fn after_send(self, deliveries: Seq<Delivery>, now: u64) -> BroadcastView {
        BroadcastView {
            subscribers: kept(self.subscribers, deliveries),
            stats: PortStats {
                sent: (self.stats.sent + reached(deliveries)) as u64,
                dropped: (self.stats.dropped + missed(deliveries)) as u64,
                last_activity: Some(now),
                ..self.stats
            },
            ..self
        }
    }
}

impl View for BroadcastPort {
    type V = BroadcastView;

    closed spec fn view(&self) -> BroadcastView {
        BroadcastView {
            subscribers: self.subscribers@,
            name: self.endpoint_name@,
            active: self.active,
            stats: self.stats,
        }
    }
}

/// Whether `r` is the refusal to receive from a port that only sends.
pub open spec fn send_only(r: Result<Option<PortMessage>, PortError>) -> bool {
    r matches Err(PortError::Io(detail)) && detail@ == "broadcast port is send-only"@
}

/// The first `k` deliveries decide about the first `k` subscribers alone.
proof fn lemma_step(
    subscribers: Seq<Outlet>,
    deliveries: Seq<Delivery>,
    k: int,
)
    requires
        subscribers.len() == deliveries.len(),
        0 <= k < subscribers.len(),
    ensures
        kept(subscribers.take(k + 1), deliveries.take(k + 1)) == (if deliveries[k] is Gone {
            kept(subscribers.take(k), deliveries.take(k))
        } else {
            kept(subscribers.take(k), deliveries.take(k)).push(subscribers[k])
        }),
{
    assert(subscribers.take(k + 1).drop_last() =~= subscribers.take(k));
    assert(deliveries.take(k + 1).drop_last() =~= deliveries.take(k));
}

/// No more subscribers are reached, or miss the message, than are asked.
proof fn lemma_counts_are_bounded(deliveries: Seq<Delivery>, k: int)
    requires
        0 <= k <= deliveries.len(),
    ensures
        reached(deliveries.take(k)) <= reached(deliveries) <= deliveries.len(),
        missed(deliveries.take(k)) <= missed(deliveries) <= deliveries.len(),
        reached(deliveries.take(k)) <= k,
        missed(deliveries.take(k)) <= k,
    decreases deliveries.len(),
{
    if deliveries.len() > 0 {
        let shorter = deliveries.drop_last();
        if k < deliveries.len() {
            assert(shorter.take(k) =~= deliveries.take(k));
            lemma_counts_are_bounded(shorter, k);
        } else {
            assert(deliveries.take(k) =~= deliveries);
            lemma_counts_are_bounded(shorter, k - 1);
        }
    }
}

/// How many subscribers were reached, and how many missed the message.
fn tally(deliveries: &Vec<Delivery>) -> (r: (u64, u64))
    ensures
        r.0 == reached(deliveries@),
        r.1 == missed(deliveries@),
{
    let mut sent_count: u64 = 0;
    let mut missed_count: u64 = 0;
    let mut k: usize = 0;
    assert(deliveries@.take(0) =~= Seq::empty());
    while k < deliveries.len()
        invariant
            k <= deliveries@.len(),
            sent_count == reached(deliveries@.take(k as int)),
            missed_count == missed(deliveries@.take(k as int)),
        decreases deliveries@.len() - k,
    {
        proof {
            assert(deliveries@.take(k + 1).drop_last() =~= deliveries@.take(k as int));
            lemma_counts_are_bounded(deliveries@, k as int);
        }
        match deliveries[k] {
            Delivery::Sent => {
                sent_count = sent_count + 1;
            },
            Delivery::Full => {
                missed_count = missed_count + 1;
            },
            Delivery::Gone => {},
        }
        k = k + 1;
    }
    assert(deliveries@.take(k as int) =~= deliveries@);
    (sent_count, missed_count)
}

impl BroadcastPort {
    /// An active port without subscribers.
    pub fn new<S: Into<String>>(name: S) -> (r: Self)
        ensures
            exists|text: String| #[trigger] converts_to(name, text) && r@.name == text@,
            r@.subscribers == Seq::<Outlet>::empty(),
            r@.active,
            r@.stats == PortStats::zero(),
    {
        let text: String = name.into();
        assert(converts_to(name, text));
        BroadcastPort {
            subscribers: Vec::new(),
            endpoint_name: text,
            active: true,
            stats: PortStats::new(),
        }
    }

    /// Subscribes to broadcasts. What is sent from now on arrives at the returned receiver, as
    /// long as no more than [`SUB_CAPACITY`] messages wait there.
    pub fn subscribe(&mut self) -> (r: mpsc::Receiver<PortMessage>)
        ensures
            exists|outlet: Outlet|
                {
                    &&& connected(#[trigger] sender_of(outlet), r, SUB_CAPACITY)
                    &&& taken(outlet) == Seq::<MessageView>::empty()
                    &&& given_back(outlet) == Seq::<MessageView>::empty()
                    &&& final(self)@ == old(self)@.with_outlets(
                        old(self)@.subscribers.push(outlet),
                    )
                },
    {
        let (outlet, rx) = Outlet::open(SUB_CAPACITY);
        assert(connected(sender_of(outlet), rx, SUB_CAPACITY));
        self.subscribers.push(outlet);
        rx
    }

    /// Current subscriber count.
    pub fn subscriber_count(&self) -> (r: usize)
        ensures
            r == self@.subscribers.len(),
    {
        self.subscribers.len()
    }

    /// Snapshot stats.
    pub fn stats(&self) -> (r: &PortStats)
        ensures
            *r == self@.stats,
    {
        &self.stats
    }

    /// Offers the message to every subscriber, in the order in which they subscribed, and returns
    /// what that came to for each of them, or the error of a closed port.
    pub fn offer_all(&mut self, message: &PortMessage) -> (r: Result<Vec<Delivery>, PortError>)
        ensures
            match r {
                Ok(deliveries) => {
                    &&& old(self)@.active
                    &&& old(self)@.offers(message@, deliveries@, final(self)@.subscribers)
                    &&& final(self)@ == old(self)@.with_outlets(final(self)@.subscribers)
                },
                Err(error) => {
                    &&& !old(self)@.active
                    &&& error == PortError::Closed
                    &&& final(self)@ == old(self)@
                },
            },
    {
        if !self.active {
            return Err(PortError::Closed);
        }
        let ghost before = self@;
        let mut deliveries: Vec<Delivery> = Vec::new();
        let mut i: usize = 0;
        while i < self.subscribers.len()
            invariant
                i <= self.subscribers@.len(),
                deliveries@.len() == i,
                self.subscribers@.len() == before.subscribers.len(),
                self@ == before.with_outlets(self.subscribers@),
                forall|j: int|
                    0 <= j < i ==> offered(
                        before.subscribers[j],
                        message@,
                        #[trigger] deliveries@[j],
                        self.subscribers@[j],
                    ),
                forall|j: int|
                    i <= j < before.subscribers.len() ==> self.subscribers@[j]
                        == #[trigger] before.subscribers[j],
            decreases self.subscribers@.len() - i,
        {
            let delivery = self.subscribers[i].offer(message.clone());
            deliveries.push(delivery);
            i = i + 1;
        }
        Ok(deliveries)
    }

    /// Whether `deliveries` can be those of a broadcast, and the counters can take them in.
    pub fn can_settle(&self, deliveries: &Vec<Delivery>) -> (r: bool)
        ensures
            r == self@.can_settle(deliveries@),
    {
        if deliveries.len() != self.subscribers.len() {
            return false;
        }
        let (sent_count, missed_count) = tally(deliveries);
        sent_count <= u64::MAX - self.stats.sent && missed_count <= u64::MAX - self.stats.dropped
    }

    /// Books a broadcast at `now`, given what it came to for each subscriber: those that are
    /// gone leave, those that were reached count as sent, those that missed it as dropped.
    pub fn settle_at(&mut self, deliveries: &Vec<Delivery>, now: u64)
        requires
            old(self)@.can_settle(deliveries@),
        ensures
            final(self)@ == old(self)@.after_send(deliveries@, now),
    {
        let ghost before = self@;
        let (sent_count, missed_count) = tally(deliveries);
        let mut place: usize = 0;
        let mut k: usize = 0;
        assert(before.subscribers.take(0) =~= Seq::empty());
        assert(deliveries@.take(0) =~= Seq::empty());
        assert(self.subscribers@ =~= kept(before.subscribers.take(0), deliveries@.take(0))
            + before.subscribers.skip(0));
        while k < deliveries.len()
            invariant
                deliveries@.len() == before.subscribers.len(),
                place <= k <= deliveries@.len(),
                self.subscribers@ == kept(before.subscribers.take(k as int), deliveries@.take(k as int))
                    + before.subscribers.skip(k as int),
                place == kept(before.subscribers.take(k as int), deliveries@.take(k as int)).len(),
                self.endpoint_name@ == before.name,
                self.active == before.active,
                self.stats == before.stats,
            decreases deliveries@.len() - k,
        {
            proof {
                lemma_step(before.subscribers, deliveries@, k as int);
            }
            let ghost left = kept(before.subscribers.take(k as int), deliveries@.take(k as int));
            let ghost right = before.subscribers.skip(k as int);
            assert(right.skip(1) =~= before.subscribers.skip(k as int + 1));
            assert(right[0] == before.subscribers[k as int]);
            match deliveries[k] {
                Delivery::Sent | Delivery::Full => {
                    place = place + 1;
                    assert(left + right =~= left.push(right[0]) + right.skip(1));
                },
                Delivery::Gone => {
                    let _gone = self.subscribers.remove(place);
                    assert((left + right).remove(left.len() as int) =~= left + right.skip(1));
                },
            }
            k = k + 1;
        }
        assert(before.subscribers.take(k as int) =~= before.subscribers);
        assert(deliveries@.take(k as int) =~= deliveries@);
        assert(before.subscribers.skip(k as int) =~= Seq::empty());
        assert(self.subscribers@ =~= kept(before.subscribers, deliveries@));
        self.stats.sent = self.stats.sent + sent_count;
        self.stats.dropped = self.stats.dropped + missed_count;
        self.stats.last_activity = Some(now);
    }

    /// Books a broadcast, given what it came to for each subscriber: those that are gone leave,
    /// those that were reached count as sent, those that missed it as dropped.
    pub fn settle(&mut self, deliveries: &Vec<Delivery>)
        requires
            old(self)@.can_settle(deliveries@),
        ensures
            exists|now: u64| #[trigger]
                clock_millis(now) && final(self)@ == old(self)@.after_send(deliveries@, now),
    {
        self.settle_at(deliveries, now_millis())
    }

    /// Sends the message to every subscriber, in the order in which they subscribed. A subscriber
    /// whose channel is full misses the message, which counts as dropped, and stays; one that is
    /// gone leaves.
    pub fn send(&mut self, message: PortMessage) -> (r: Result<(), PortError>)
        requires
            old(self)@.active ==> {
                &&& old(self)@.stats.sent + old(self)@.subscribers.len() <= u64::MAX
                &&& old(self)@.stats.dropped + old(self)@.subscribers.len() <= u64::MAX
            },
        ensures
            !old(self)@.active ==> r == Err::<(), PortError>(PortError::Closed) && final(self)@
                == old(self)@,
            old(self)@.active ==> r == Ok::<(), PortError>(()) && exists|
                deliveries: Seq<Delivery>,
                after: Seq<Outlet>,
                now: u64,
            |
                {
                    &&& #[trigger] old(self)@.offers(message@, deliveries, after)
                    &&& #[trigger] clock_millis(now)
                    &&& final(self)@ == old(self)@.with_outlets(after).after_send(deliveries, now)
                },
    {
        match self.offer_all(&message) {
            Ok(deliveries) => {
                proof {
                    lemma_counts_are_bounded(deliveries@, 0);
                }
                let ghost after = self@.subscribers;
                self.settle(&deliveries);
                assert(old(self)@.offers(message@, deliveries@, after));
                Ok(())
            },
            Err(error) => Err(error),
        }
    }

    /// Refuses: a broadcast port only sends.
    pub fn receive(&mut self) -> (r: Result<Option<PortMessage>, PortError>)
        ensures
            send_only(r),
            final(self)@ == old(self)@,
    {
        Err(PortError::Io("broadcast port is send-only".into()))
    }

    /// Refuses: a broadcast port only sends.
    pub fn poll(&mut self, _timeout: Duration) -> (r: Result<Option<PortMessage>, PortError>)
        ensures
            send_only(r),
            final(self)@ == old(self)@,
    {
        Err(PortError::Io("broadcast port is send-only".into()))
    }

    /// Gracefully closes the port and lets all subscribers go.
    pub fn close(&mut self) -> (r: Result<(), PortError>)
        ensures
            r == Ok::<(), PortError>(()),
            final(self)@ == (BroadcastView {
                active: false,
                subscribers: Seq::empty(),
                ..old(self)@
            }),
    {
        self.active = false;
        self.subscribers.clear();
        Ok(())
    }
}

impl AsyncPort for BroadcastPort {
    fn is_active(&self) -> (r: bool)
        ensures
            r == self@.active,
    {
        self.active
    }

    fn endpoint(&self) -> (r: &str)
        ensures
            r@ == self@.name,
    {
        self.endpoint_name.as_str()
    }
}

/// A broadcast that finds no subscriber gone loses none of them. It counts each of them once, as
/// sent where it reached the subscriber and as dropped where the subscriber missed it; where it
/// reached all of them it drops nothing.
pub proof fn law_live_subscribers_stay(
    port: BroadcastView,
    deliveries: Seq<Delivery>,
    now: u64,
)
    requires
        deliveries.len() == port.subscribers.len(),
        port.stats.sent + deliveries.len() <= u64::MAX,
        port.stats.dropped + deliveries.len() <= u64::MAX,
        forall|i: int| 0 <= i < deliveries.len() ==> !(#[trigger] deliveries[i] is Gone),
    ensures
        port.after_send(deliveries, now).subscribers == port.subscribers,
        (port.after_send(deliveries, now).stats.sent - port.stats.sent) + (port.after_send(
            deliveries,
            now,
        ).stats.dropped - port.stats.dropped) == deliveries.len(),
        (forall|i: int| 0 <= i < deliveries.len() ==> #[trigger] deliveries[i] is Sent)
            ==> port.after_send(deliveries, now).stats.dropped == port.stats.dropped,
    decreases deliveries.len(),
{
    if deliveries.len() > 0 {
        let shorter = BroadcastView { subscribers: port.subscribers.drop_last(), ..port };
        lemma_counts_are_bounded(deliveries, 0);
        lemma_counts_are_bounded(deliveries.drop_last(), 0);
        law_live_subscribers_stay(shorter, deliveries.drop_last(), now);
        assert forall|i: int| 0 <= i < deliveries.len() - 1 implies deliveries.drop_last()[i]
            == #[trigger] deliveries[i] by {}
        assert(port.subscribers.drop_last().push(port.subscribers.last()) =~= port.subscribers);
    } else {
        assert(port.subscribers =~= Seq::empty());
    }
}

/// Which subscriber stays depends only on what happened to that subscriber: a broadcast to two
/// groups, one after the other, keeps of each group what it would keep of it alone.
pub proof fn law_subscribers_are_independent(
    first: Seq<Outlet>,
    first_deliveries: Seq<Delivery>,
    second: Seq<Outlet>,
    second_deliveries: Seq<Delivery>,
)
    requires
        first.len() == first_deliveries.len(),
        second.len() == second_deliveries.len(),
    ensures
        kept(first + second, first_deliveries + second_deliveries) == kept(first, first_deliveries)
            + kept(second, second_deliveries),
        reached(first_deliveries + second_deliveries) == reached(first_deliveries) + reached(
            second_deliveries,
        ),
        missed(first_deliveries + second_deliveries) == missed(first_deliveries) + missed(
            second_deliveries,
        ),
    decreases second.len(),
{
    if second.len() == 0 {
        assert(first + second =~= first);
        assert(first_deliveries + second_deliveries =~= first_deliveries);
        assert(kept(first, first_deliveries) + kept(second, second_deliveries) =~= kept(
            first,
            first_deliveries,
        ));
    } else {
        law_subscribers_are_independent(
            first,
            first_deliveries,
            second.drop_last(),
            second_deliveries.drop_last(),
        );
        assert((first + second).drop_last() =~= first + second.drop_last());
        assert((first_deliveries + second_deliveries).drop_last() =~= first_deliveries
            + second_deliveries.drop_last());
        assert(kept(first + second, first_deliveries + second_deliveries) =~= kept(
            first,
            first_deliveries,
        ) + kept(second, second_deliveries));
    }
}

/// After a broadcast no subscriber is left that was found gone, and nobody else was let go: what
/// remains is as many subscribers as were not gone, and where all were gone, none.
pub proof fn law_gone_subscribers_leave(
    subscribers: Seq<Outlet>,
    deliveries: Seq<Delivery>,
)
    requires
        subscribers.len() == deliveries.len(),
    ensures
        kept(subscribers, deliveries).len() == deliveries.filter(
            |d: Delivery| !(d is Gone),
        ).len(),
        forall|outlet: Outlet| #[trigger]
            kept(subscribers, deliveries).contains(outlet) <==> exists|i: int|
                0 <= i < subscribers.len() && #[trigger] subscribers[i] == outlet && !(
                deliveries[i] is Gone),
    decreases subscribers.len(),
{
    reveal(Seq::filter);
    if subscribers.len() > 0 {
        let s = subscribers.drop_last();
        let d = deliveries.drop_last();
        law_gone_subscribers_leave(s, d);
        assert forall|outlet: Outlet| #[trigger]
            kept(subscribers, deliveries).contains(outlet) <==> exists|i: int|
                0 <= i < subscribers.len() && #[trigger] subscribers[i] == outlet && !(
                deliveries[i] is Gone) by {
            let rest = kept(s, d);
            if rest.contains(outlet) {
                let i = choose|i: int|
                    0 <= i < s.len() && #[trigger] s[i] == outlet && !(d[i] is Gone);
                assert(subscribers[i] == outlet);
                let j = choose|j: int| 0 <= j < rest.len() && rest[j] == outlet;
                assert(kept(subscribers, deliveries)[j] == outlet);
            }
            if !(deliveries.last() is Gone) && subscribers.last() == outlet {
                assert(subscribers[subscribers.len() - 1] == outlet);
                assert(kept(subscribers, deliveries)[rest.len() as int] == outlet);
            }
            if exists|i: int|
                0 <= i < subscribers.len() && #[trigger] subscribers[i] == outlet && !(
                deliveries[i] is Gone) {
                let i = choose|i: int|
                    0 <= i < subscribers.len() && #[trigger] subscribers[i] == outlet && !(
                    deliveries[i] is Gone);
                if i < s.len() {
                    assert(s[i] == outlet && !(d[i] is Gone));
                    assert(rest.contains(outlet));
                }
            }
            if kept(subscribers, deliveries).contains(outlet) && !rest.contains(outlet) {
                let j = choose|j: int|
                    0 <= j < kept(subscribers, deliveries).len() && kept(
                        subscribers,
                        deliveries,
                    )[j] == outlet;
                if j < rest.len() {
                    assert(rest[j] == outlet);
                }
            }
        }
    }
}

/// One broadcast of a row: what it came to for each subscriber, the outlets as it left them, and
/// when it was.
pub struct Round {
    pub deliveries: Seq<Delivery>,
    pub after: Seq<Outlet>,
    pub now: u64,
}

/// The state after a row of broadcasts.
pub open spec fn after_rounds(port: BroadcastView, rounds: Seq<Round>) -> BroadcastView
    decreases rounds.len(),
{
    if rounds.len() == 0 {
        port
    } else {
        let round = rounds.last();
        after_rounds(port, rounds.drop_last()).with_outlets(round.after).after_send(
            round.deliveries,
            round.now,
        )
    }
}

/// Whether broadcasting `messages` one after the other may come to `rounds`.
pub open spec fn broadcasts(
    port: BroadcastView,
    messages: Seq<MessageView>,
    rounds: Seq<Round>,
) -> bool
    decreases rounds.len(),
{
    &&& messages.len() == rounds.len()
    &&& rounds.len() > 0 ==> {
        &&& broadcasts(port, messages.drop_last(), rounds.drop_last())
        &&& after_rounds(port, rounds.drop_last()).offers(
            messages.last(),
            rounds.last().deliveries,
            rounds.last().after,
        )
    }
}

/// How many subscribers stay.
pub open spec fn staying(deliveries: Seq<Delivery>) -> nat
    decreases deliveries.len(),
{
    if deliveries.len() == 0 {
        0
    } else {
        staying(deliveries.drop_last()) + if deliveries.last() is Gone {
            0nat
        } else {
            1nat
        }
    }
}

/// The place, after a row of broadcasts, of the subscriber that had `place` before it: all who
/// stood before it and left let it move up.
pub open spec fn place_after(rounds: Seq<Round>, place: int) -> int
    decreases rounds.len(),
{
    if rounds.len() == 0 {
        place
    } else {
        staying(rounds.last().deliveries.take(place_after(rounds.drop_last(), place))) as int
    }
}

/// What the last broadcast of a row came to for the subscriber that had `place` before the row.
pub open spec fn last_delivery(rounds: Seq<Round>, place: int) -> Delivery {
    rounds.last().deliveries[place_after(rounds.drop_last(), place)]
}

/// Whether no broadcast of the row finds the subscriber gone that had `place` before it.
pub open spec fn never_gone(rounds: Seq<Round>, place: int) -> bool
    decreases rounds.len(),
{
    rounds.len() > 0 ==> never_gone(rounds.drop_last(), place) && !(last_delivery(
        rounds,
        place,
    ) is Gone)
}

/// Of `messages`, broadcast in a row, those that the subscriber did not miss that had `place`
/// before the row, in the order sent.
pub open spec fn not_missed(
    messages: Seq<MessageView>,
    rounds: Seq<Round>,
    place: int,
) -> Seq<MessageView>
    decreases rounds.len(),
{
    if rounds.len() == 0 {
        Seq::empty()
    } else {
        let rest = not_missed(messages.drop_last(), rounds.drop_last(), place);
        if last_delivery(rounds, place) is Sent {
            rest.push(messages.last())
        } else {
            rest
        }
    }
}

/// Whether every broadcast of the row reaches the subscriber that had `place` before it.
pub open spec fn always_reached(rounds: Seq<Round>, place: int) -> bool
    decreases rounds.len(),
{
    rounds.len() > 0 ==> always_reached(rounds.drop_last(), place) && last_delivery(
        rounds,
        place,
    ) is Sent
}

/// A subscriber that stays has as many before it as stayed of those that stood before it.
proof fn lemma_place_of_the_staying(outlets: Seq<Outlet>, deliveries: Seq<Delivery>, place: int)
    requires
        outlets.len() == deliveries.len(),
        0 <= place < outlets.len(),
        !(deliveries[place] is Gone),
    ensures
        kept(outlets, deliveries).len() == staying(deliveries),
        staying(deliveries.take(place)) < kept(outlets, deliveries).len(),
        kept(outlets, deliveries)[staying(deliveries.take(place)) as int] == outlets[place],
    decreases outlets.len(),
{
    let fewer = outlets.drop_last();
    let shorter = deliveries.drop_last();
    lemma_kept_count(outlets, deliveries);
    lemma_kept_count(fewer, shorter);
    if place < fewer.len() {
        lemma_place_of_the_staying(fewer, shorter, place);
        assert(shorter.take(place) =~= deliveries.take(place));
    } else {
        assert(deliveries.take(place) =~= shorter);
    }
}

proof fn lemma_kept_count(outlets: Seq<Outlet>, deliveries: Seq<Delivery>)
    requires
        outlets.len() == deliveries.len(),
    ensures
        kept(outlets, deliveries).len() == staying(deliveries),
    decreases outlets.len(),
{
    if outlets.len() > 0 {
        lemma_kept_count(outlets.drop_last(), deliveries.drop_last());
    }
}

/// What a subscriber's channel has taken grows, over a row of broadcasts of which none finds the
/// subscriber gone, by exactly the messages that it did not miss, in the order in which they are
/// sent and nothing in between; the subscriber stays, with the same channel. Where every
/// broadcast reaches it, these are all messages of the row. A subscriber that is new has taken
/// nothing before.
pub proof fn law_subscriber_takes_what_it_does_not_miss(
    port: BroadcastView,
    messages: Seq<MessageView>,
    rounds: Seq<Round>,
    place: int,
)
    requires
        0 <= place < port.subscribers.len(),
        broadcasts(port, messages, rounds),
        never_gone(rounds, place),
    ensures
        0 <= place_after(rounds, place) < after_rounds(port, rounds).subscribers.len(),
        ({
            let before = port.subscribers[place];
            let after = after_rounds(port, rounds).subscribers[place_after(rounds, place)];
            &&& sender_of(after) == sender_of(before)
            &&& taken(after) == taken(before) + not_missed(messages, rounds, place)
            &&& always_reached(rounds, place) ==> taken(after) == taken(before) + messages
        }),
    decreases rounds.len(),
{
    let first = taken(port.subscribers[place]);
    if rounds.len() == 0 {
        assert(first + not_missed(messages, rounds, place) =~= first);
        assert(first + messages =~= first);
    } else {
        let fewer = rounds.drop_last();
        let earlier = messages.drop_last();
        law_subscriber_takes_what_it_does_not_miss(port, earlier, fewer, place);
        let round = rounds.last();
        let before = after_rounds(port, fewer);
        let here = place_after(fewer, place);
        assert(offered(
            before.subscribers[here],
            messages.last(),
            round.deliveries[here],
            round.after[here],
        ));
        lemma_place_of_the_staying(round.after, round.deliveries, here);
        assert(first + not_missed(messages, rounds, place) =~= if round.deliveries[here] is Sent {
            (first + not_missed(earlier, fewer, place)).push(messages.last())
        } else {
            first + not_missed(earlier, fewer, place)
        });
        assert(first + messages =~= (first + earlier).push(messages.last()));
    }
}

/// The subscribers that stay are those at `places`: everyone who is not gone, in order. The
/// numbers of those that were reached and of those that missed the message are told truly.
proof fn lemma_stay_in_order(outlets: Seq<Outlet>, deliveries: Seq<Delivery>) -> (places: Seq<int>)
    requires
        outlets.len() == deliveries.len(),
    ensures
        forall|i: int, j: int| 0 <= i < j < places.len() ==> places[i] < places[j],
        forall|j: int|
            0 <= j < places.len() ==> 0 <= #[trigger] places[j] < deliveries.len() && !(
            deliveries[places[j]] is Gone),
        forall|i: int|
            0 <= i < deliveries.len() && !(#[trigger] deliveries[i] is Gone) ==> places.contains(i),
        kept(outlets, deliveries).len() == places.len(),
        forall|j: int|
            0 <= j < places.len() ==> #[trigger] kept(outlets, deliveries)[j]
                == outlets[places[j]],
        reached(deliveries) == deliveries.filter(|d: Delivery| d is Sent).len(),
        missed(deliveries) == deliveries.filter(|d: Delivery| d is Full).len(),
    decreases outlets.len(),
{
    reveal(Seq::filter);
    if outlets.len() == 0 {
        Seq::empty()
    } else {
        let fewer = lemma_stay_in_order(outlets.drop_last(), deliveries.drop_last());
        let last = deliveries.len() - 1;
        let rest = kept(outlets.drop_last(), deliveries.drop_last());
        let places = if deliveries.last() is Gone {
            fewer
        } else {
            fewer.push(last)
        };
        assert forall|j: int| 0 <= j < places.len() implies 0 <= #[trigger] places[j]
            < deliveries.len() && !(deliveries[places[j]] is Gone) && kept(outlets, deliveries)[j]
            == outlets[places[j]] by {
            if j < fewer.len() {
                assert(places[j] == fewer[j]);
                assert(!(deliveries.drop_last()[fewer[j]] is Gone));
                assert(rest[j] == outlets.drop_last()[fewer[j]]);
            }
        }
        assert forall|i: int|
            0 <= i < deliveries.len() && !(
            #[trigger] deliveries[i] is Gone) implies places.contains(i) by {
            if i < last {
                assert(!(deliveries.drop_last()[i] is Gone));
                let j = choose|j: int| 0 <= j < fewer.len() && fewer[j] == i;
                assert(places[j] == i);
            } else {
                assert(places[fewer.len() as int] == i);
            }
        }
        places
    }
}

/// A new port is active, without subscribers, with nothing counted, and named by what the given
/// name converts to.
pub proof fn law_new_port_has_no_subscribers<S: Into<String>>(name: S, r: BroadcastPort)
    requires
        call_ensures(BroadcastPort::new::<S>, (name,), r),
    ensures
        r@.active,
        r@.subscribers.len() == 0,
        r@.stats == (PortStats {
            sent: 0,
            received: 0,
            dropped: 0,
            errors: 0,
            last_activity: None,
        }),
        exists|text: String| #[trigger] call_ensures(S::into, (name,), text) && r@.name == text@,
{
    let text = choose|text: String| #[trigger] converts_to(name, text) && r@.name == text@;
    assert(call_ensures(S::into, (name,), text));
}

/// What a port answers is what it is: whether it is active, its name, how many subscribers it
/// has, and what it counted.
pub proof fn law_broadcast_port_answers_for_itself(
    port: BroadcastPort,
    active: bool,
    name: &str,
    count: usize,
    stats: &PortStats,
)
    requires
        call_ensures(<BroadcastPort as AsyncPort>::is_active, (&port,), active),
        call_ensures(<BroadcastPort as AsyncPort>::endpoint, (&port,), name),
        call_ensures(BroadcastPort::subscriber_count, (&port,), count),
        call_ensures(BroadcastPort::stats, (&port,), stats),
    ensures
        active == port@.active,
        name@ == port@.name,
        count == port@.subscribers.len(),
        *stats == port@.stats,
{
}

/// A new subscriber comes last, on a fresh channel for 256 messages that nothing has gone
/// through, and whose receiving half is what the subscriber gets. Everyone before it stays, and
/// nothing else of the port changes.
pub proof fn law_new_subscriber_comes_last(
    port: &mut BroadcastPort,
    r: mpsc::Receiver<PortMessage>,
)
    requires
        call_ensures(BroadcastPort::subscribe, (port,), r),
    ensures
        final(port)@.subscribers.len() == old(port)@.subscribers.len() + 1,
        forall|i: int|
            0 <= i < old(port)@.subscribers.len() ==> #[trigger] final(port)@.subscribers[i]
                == old(port)@.subscribers[i],
        call_ensures(
            mpsc::channel::<PortMessage>,
            (256usize,),
            (sender_of(final(port)@.subscribers.last()), r),
        ),
        taken(final(port)@.subscribers.last()).len() == 0,
        given_back(final(port)@.subscribers.last()).len() == 0,
        final(port)@.active == old(port)@.active,
        final(port)@.name == old(port)@.name,
        final(port)@.stats == old(port)@.stats,
{
}

/// An active port offers the very message to every subscriber, once; a closed one refuses, and
/// nothing changes. What is told of each offer is true: where the message was sent, it is the
/// last that the subscriber's channel took; where it was not, the channel gave it back and then
/// said whether the subscriber is gone. Nothing else goes into a channel, and nothing else of
/// the port changes.
pub proof fn law_every_subscriber_is_offered_the_message(
    port: &mut BroadcastPort,
    message: &PortMessage,
    r: Result<Vec<Delivery>, PortError>,
)
    requires
        call_ensures(BroadcastPort::offer_all, (port, message), r),
    ensures
        r is Ok <==> old(port)@.active,
        r matches Err(error) ==> error == PortError::Closed && final(port)@ == old(port)@,
        r matches Ok(deliveries) ==> deliveries@.len() == old(port)@.subscribers.len(),
        final(port)@.subscribers.len() == old(port)@.subscribers.len(),
        r matches Ok(deliveries) ==> forall|i: int|
            0 <= i < deliveries@.len() ==> {
                let before = old(port)@.subscribers[i];
                let after = final(port)@.subscribers[i];
                &&& sender_of(after) == sender_of(before)
                &&& #[trigger] deliveries@[i] is Sent ==> taken(after) == taken(before).push(
                    message@,
                ) && given_back(after) == given_back(before)
                &&& !(deliveries@[i] is Sent) ==> taken(after) == taken(before) && given_back(after)
                    == given_back(before).push(message@)
                &&& deliveries@[i] is Gone ==> after.answers_closed(true)
                &&& deliveries@[i] is Full ==> after.answers_closed(false)
            },
        final(port)@.active == old(port)@.active,
        final(port)@.name == old(port)@.name,
        final(port)@.stats == old(port)@.stats,
{
}

/// Whether a broadcast can be booked is told truly: there is one delivery for each subscriber,
/// and neither count overflows.
pub proof fn law_booking_fits_the_counters(port: BroadcastPort, deliveries: &Vec<Delivery>, r: bool)
    requires
        call_ensures(BroadcastPort::can_settle, (&port, deliveries), r),
    ensures
        r <==> deliveries@.len() == port@.subscribers.len() && port@.stats.sent
            + deliveries@.filter(|d: Delivery| d is Sent).len() <= u64::MAX && port@.stats.dropped
            + deliveries@.filter(|d: Delivery| d is Full).len() <= u64::MAX,
{
    if deliveries@.len() == port@.subscribers.len() {
        lemma_stay_in_order(port@.subscribers, deliveries@);
    }
}

/// Booking a broadcast lets go of exactly the subscribers that are gone, and the others, which
/// stood at the returned places, stay in order. Those that were reached count as sent, those
/// that missed the message as dropped, and the time is that of the booking. Whoever left, the
/// port stays as active as it was, and nothing else of it changes.
pub proof fn law_booking_lets_go_of_the_gone_alone(
    port: &mut BroadcastPort,
    deliveries: &Vec<Delivery>,
    now: u64,
) -> (places: Seq<int>)
    requires
        call_ensures(BroadcastPort::settle_at, (port, deliveries, now), ()) || call_ensures(
            BroadcastPort::settle,
            (port, deliveries),
            (),
        ),
        deliveries@.len() == old(port)@.subscribers.len(),
        old(port)@.stats.sent + deliveries@.filter(|d: Delivery| d is Sent).len() <= u64::MAX,
        old(port)@.stats.dropped + deliveries@.filter(|d: Delivery| d is Full).len() <= u64::MAX,
    ensures
        final(port)@.active == old(port)@.active,
        final(port)@.name == old(port)@.name,
        forall|i: int, j: int| 0 <= i < j < places.len() ==> places[i] < places[j],
        forall|j: int|
            0 <= j < places.len() ==> 0 <= #[trigger] places[j] < deliveries@.len() && !(
            deliveries@[places[j]] is Gone),
        forall|i: int|
            0 <= i < deliveries@.len() && !(#[trigger] deliveries@[i] is Gone)
                ==> places.contains(i),
        final(port)@.subscribers.len() == places.len(),
        forall|j: int|
            0 <= j < places.len() ==> #[trigger] final(port)@.subscribers[j]
                == old(port)@.subscribers[places[j]],
        final(port)@.stats.sent == old(port)@.stats.sent + deliveries@.filter(
            |d: Delivery| d is Sent,
        ).len(),
        final(port)@.stats.dropped == old(port)@.stats.dropped + deliveries@.filter(
            |d: Delivery| d is Full,
        ).len(),
        final(port)@.stats.received == old(port)@.stats.received,
        final(port)@.stats.errors == old(port)@.stats.errors,
        call_ensures(BroadcastPort::settle_at, (port, deliveries, now), ())
            ==> final(port)@.stats.last_activity == Some(now),
        call_ensures(BroadcastPort::settle, (port, deliveries), ())
            ==> (final(port)@.stats.last_activity matches Some(t) && clock_millis(t)),
{
    lemma_stay_in_order(old(port)@.subscribers, deliveries@)
}

/// A broadcast succeeds exactly where the port is active, whoever is there to hear it, and fails
/// with `Closed` otherwise, changing nothing. It never changes whether the port is active. Each
/// subscriber is offered the very message once: its channel took it, or gave it back and said
/// whether the subscriber is gone. Exactly the subscribers that are gone leave; the others, which
/// stood at `places`, stay in order. Those that were reached count as sent, those
/// that missed the message as dropped.
pub proof fn law_broadcast_reaches_everyone_and_keeps_the_port_open(
    port: &mut BroadcastPort,
    message: PortMessage,
    r: Result<(), PortError>,
)
    requires
        call_ensures(BroadcastPort::send, (port, message), r),
        old(port)@.stats.sent + old(port)@.subscribers.len() <= u64::MAX,
        old(port)@.stats.dropped + old(port)@.subscribers.len() <= u64::MAX,
    ensures
        old(port)@.active ==> r == Ok::<(), PortError>(()),
        !old(port)@.active ==> r == Err::<(), PortError>(PortError::Closed) && final(port)@
            == old(port)@,
        final(port)@.active == old(port)@.active,
        final(port)@.name == old(port)@.name,
        final(port)@.stats.received == old(port)@.stats.received,
        final(port)@.stats.errors == old(port)@.stats.errors,
        old(port)@.active ==> exists|
            deliveries: Seq<Delivery>,
            after: Seq<Outlet>,
            places: Seq<int>,
        |
            #![trigger deliveries.len(), after.len(), places.len()]
        {
            &&& deliveries.len() == old(port)@.subscribers.len()
            &&& after.len() == old(port)@.subscribers.len()
            &&& forall|i: int|
                0 <= i < deliveries.len() ==> {
                    let before = old(port)@.subscribers[i];
                    &&& sender_of(after[i]) == sender_of(before)
                    &&& #[trigger] deliveries[i] is Sent ==> taken(after[i]) == taken(before).push(
                        message@,
                    ) && given_back(after[i]) == given_back(before)
                    &&& !(deliveries[i] is Sent) ==> taken(after[i]) == taken(before) && given_back(
                        after[i],
                    ) == given_back(before).push(message@)
                    &&& deliveries[i] is Gone ==> after[i].answers_closed(true)
                    &&& deliveries[i] is Full ==> after[i].answers_closed(false)
                }
            &&& forall|i: int, j: int| 0 <= i < j < places.len() ==> places[i] < places[j]
            &&& forall|j: int|
                0 <= j < places.len() ==> 0 <= #[trigger] places[j] < deliveries.len() && !(
                deliveries[places[j]] is Gone)
            &&& forall|i: int|
                0 <= i < deliveries.len() && !(#[trigger] deliveries[i] is Gone)
                    ==> places.contains(i)
            &&& final(port)@.subscribers.len() == places.len()
            &&& forall|j: int|
                0 <= j < places.len() ==> #[trigger] final(port)@.subscribers[j]
                    == after[places[j]]
            &&& final(port)@.stats.sent == old(port)@.stats.sent + deliveries.filter(
                |d: Delivery| d is Sent,
            ).len()
            &&& final(port)@.stats.dropped == old(port)@.stats.dropped + deliveries.filter(
                |d: Delivery| d is Full,
            ).len()
            &&& final(port)@.stats.last_activity matches Some(t)
            &&& clock_millis(t)
        },
{
    if old(port)@.active {
        let (deliveries, after, now) = choose|
            deliveries: Seq<Delivery>,
            after: Seq<Outlet>,
            now: u64,
        |
            {
                &&& #[trigger] old(port)@.offers(message@, deliveries, after)
                &&& #[trigger] clock_millis(now)
                &&& final(port)@ == old(port)@.with_outlets(after).after_send(deliveries, now)
            };
        lemma_counts_are_bounded(deliveries, 0);
        let places = lemma_stay_in_order(after, deliveries);
        assert(deliveries.len() == after.len() && places.len() >= 0);
    }
}

/// A port that is open for one broadcast is open for the next: both succeed, whatever became of
/// the subscribers, and whoever subscribed in between.
pub proof fn law_only_closing_ends_broadcasts(
    first: &mut BroadcastPort,
    one: PortMessage,
    one_result: Result<(), PortError>,
    between: &mut BroadcastPort,
    receiver: mpsc::Receiver<PortMessage>,
    second: &mut BroadcastPort,
    other: PortMessage,
    other_result: Result<(), PortError>,
)
    requires
        old(first)@.active,
        call_ensures(BroadcastPort::send, (first, one), one_result),
        old(between)@ == final(first)@,
        call_ensures(BroadcastPort::subscribe, (between,), receiver),
        old(second)@ == final(between)@,
        call_ensures(BroadcastPort::send, (second, other), other_result),
    ensures
        one_result == Ok::<(), PortError>(()),
        other_result == Ok::<(), PortError>(()),
        final(second)@.active,
{
}

/// Closing always succeeds, makes the port inactive and lets every subscriber go; the name and
/// the counts stay.
pub proof fn law_close_lets_everyone_go(port: &mut BroadcastPort, r: Result<(), PortError>)
    requires
        call_ensures(BroadcastPort::close, (port,), r),
    ensures
        r == Ok::<(), PortError>(()),
        !final(port)@.active,
        final(port)@.subscribers.len() == 0,
        final(port)@.name == old(port)@.name,
        final(port)@.stats == old(port)@.stats,
{
}

/// A broadcast port never receives: receiving, and polling for however long, fail with the
/// reason, and change nothing, whether the port is active or not.
pub proof fn law_broadcast_port_only_sends(
    port: &mut BroadcastPort,
    timeout: Duration,
    r: Result<Option<PortMessage>, PortError>,
)
    requires
        call_ensures(BroadcastPort::receive, (port,), r) || call_ensures(
            BroadcastPort::poll,
            (port, timeout),
            r,
        ),
    ensures
        r matches Err(PortError::Io(detail)) && detail@ == "broadcast port is send-only"@,
        final(port)@ == old(port)@,
{
}

} // verus!
