//! A port that stands for several others.
use crate::channel::ChannelPort;
use crate::clock::divide_timeout;
use crate::clock::duration_nanos;
use crate::error::PortError;
use crate::message::converts_to;
use crate::message::PortMessage;
use crate::port::answers;
use crate::port::AsyncPort;
use std::time::Duration;
use vstd::prelude::*;

verus! {

/// How long each port is polled before receiving from one of them, in milliseconds.
pub const RECEIVE_SLICE_MILLIS: u64 = 50;

/// How far sending got.
#[derive(Debug)]
pub enum SendStep {
    /// The port at `index` has to send `message`; what it returns is the result.
    Forward { index: usize, message: PortMessage },
    /// This is the result.
    Done(Result<(), PortError>),
}

/// How far a receive or a poll got.
#[derive(Debug)]
pub enum ReceiveStep {
    /// The port at `index` has to be polled for `timeout` first.
    Poll { index: usize, timeout: Duration },
    /// The port at `index` has to receive; what it returns is the result.
    Receive { index: usize },
    /// This is the result.
    Done(Result<Option<PortMessage>, PortError>),
}

/// How far closing got.
#[derive(Debug)]
pub enum CloseStep {
    /// The port at `index` has to be closed first.
    Close { index: usize },
    /// This is the result.
    Done(Result<(), PortError>),
}

/// A [`ReceiveStep`], with the time to poll for in nanoseconds.
pub enum StepView {
    Poll { index: int, nanos: nat },
    Receive { index: int },
    Done(Result<Option<PortMessage>, PortError>),
}

impl View for ReceiveStep {
    type V = StepView;

    open spec fn view(&self) -> StepView {
        match *self {
            ReceiveStep::Poll { index, timeout } => StepView::Poll {
                index: index as int,
                nanos: duration_nanos(timeout),
            },
            ReceiveStep::Receive { index } => StepView::Receive { index: index as int },
            ReceiveStep::Done(result) => StepView::Done(result),
        }
    }
}

/// Whether `found` is the first of `ports` that answers that it is active, where every port
/// before it answers that it is not; `None` where all of them answer that they are not.
pub open spec fn first_active<P: AsyncPort>(ports: Seq<P>, found: Option<usize>) -> bool {
    match found {
        Some(index) => {
            &&& index < ports.len()
            &&& answers(ports[index as int], true)
            &&& forall|i: int| 0 <= i < index ==> answers(#[trigger] ports[i], false)
        },
        None => forall|i: int| 0 <= i < ports.len() ==> answers(#[trigger] ports[i], false),
    }
}

/// Sending goes to the port that was found active, or fails because all are closed.
pub open spec fn send_step(found: Option<usize>, message: PortMessage) -> SendStep {
    match found {
        Some(index) => SendStep::Forward { index, message },
        None => SendStep::Done(Err(PortError::Closed)),
    }
}

/// Receiving goes on with the port that was found active, or there is no message.
pub open spec fn receive_step(found: Option<usize>) -> StepView {
    match found {
        Some(index) => StepView::Receive { index: index as int },
        None => StepView::Done(Ok(None)),
    }
}

/// How polling `count` ports for `nanos` each goes on after the one at `index` gave `result`: a
/// message ends it, and so does the last port, with `last`.
pub open spec fn polled_step(
    count: int,
    index: int,
    nanos: nat,
    result: Result<Option<PortMessage>, PortError>,
    last: StepView,
) -> StepView {
    if result matches Ok(Some(_)) {
        StepView::Done(result)
    } else if index + 1 < count {
        StepView::Poll { index: index + 1, nanos }
    } else {
        last
    }
}

/// How closing `count` ports goes on from the one at `index`.
pub open spec fn close_step(count: int, index: int) -> CloseStep {
    if index < count {
        CloseStep::Close { index: index as usize }
    } else {
        CloseStep::Done(Ok(()))
    }
}

/// The divisor by which a timeout is split among `count` ports: their number in 32 bits.
pub open spec fn timeout_parts(count: nat) -> nat {
    count % 0x1_0000_0000
}

/// Wraps multiple ports and provides unified receive/poll across all of them.
pub struct MultiplexPort<P> {
    ports: Vec<P>,
    endpoint_name: String,
}

/// The state of a [`MultiplexPort`].
#[verifier::reject_recursive_types(P)]
pub struct MultiplexView<P> {
    pub ports: Seq<P>,
    pub name: Seq<char>,
}

impl<P> View for MultiplexPort<P> {
    type V = MultiplexView<P>;

    closed spec fn view(&self) -> MultiplexView<P> {
        MultiplexView { ports: self.ports@, name: self.endpoint_name@ }
    }
}

impl<P> MultiplexPort<P> {
    /// A multiplexer without ports.
    pub fn new<S: Into<String>>(name: S) -> (r: Self)
        ensures
            exists|text: String| #[trigger] converts_to(name, text) && r@.name == text@,
            r@.ports == Seq::<P>::empty(),
    {
        let text: String = name.into();
        assert(converts_to(name, text));
        MultiplexPort { ports: Vec::new(), endpoint_name: text }
    }

    /// Add a port to the multiplexer.
    pub fn add_port(&mut self, port: P)
        ensures
            final(self)@ == (MultiplexView { ports: old(self)@.ports.push(port), ..old(self)@ }),
    {
        self.ports.push(port);
    }

    /// Number of managed ports.
    pub fn port_count(&self) -> (r: usize)
        ensures
            r == self@.ports.len(),
    {
        self.ports.len()
    }

    /// The port at `index`, to wait on.
    pub fn port(&mut self, index: usize) -> (r: &mut P)
        requires
            index < old(self)@.ports.len(),
        ensures
            *r == old(self)@.ports[index as int],
            final(self)@ == (MultiplexView {
                ports: old(self)@.ports.update(index as int, *final(r)),
                ..old(self)@
            }),
    {
        &mut self.ports[index]
    }

    /// Starts to receive: the first port is polled, where there is one.
    pub fn receive_any(&self) -> (r: ReceiveStep)
        ensures
            r@ == (if self@.ports.len() == 0 {
                StepView::Done(Err(PortError::Closed))
            } else {
                StepView::Poll { index: 0, nanos: (RECEIVE_SLICE_MILLIS * 1_000_000) as nat }
            }),
    {
        if self.ports.len() == 0 {
            return ReceiveStep::Done(Err(PortError::Closed));
        }
        ReceiveStep::Poll { index: 0, timeout: Duration::from_millis(RECEIVE_SLICE_MILLIS) }
    }

    /// Starts to poll: the first port is polled for its share of `timeout`, where there is one.
    pub fn start_poll(&self, timeout: Duration) -> (r: ReceiveStep)
        requires
            self@.ports.len() > 0 ==> timeout_parts(self@.ports.len()) != 0,
        ensures
            r@ == (if self@.ports.len() == 0 {
                StepView::Done(Err(PortError::Closed))
            } else {
                StepView::Poll {
                    index: 0,
                    nanos: duration_nanos(timeout) / timeout_parts(self@.ports.len()),
                }
            }),
    {
        if self.ports.len() == 0 {
            return ReceiveStep::Done(Err(PortError::Closed));
        }
        let parts: u64 = (self.ports.len() as u64) % 0x1_0000_0000;
        ReceiveStep::Poll { index: 0, timeout: divide_timeout(timeout, parts as u32) }
    }

    /// Goes on with a poll after the port at `index`, polled for `timeout`, gave `result`.
    pub fn poll_next(
        &self,
        index: usize,
        timeout: Duration,
        result: Result<Option<PortMessage>, PortError>,
    ) -> (r: ReceiveStep)
        requires
            index < self@.ports.len(),
        ensures
            r@ == polled_step(
                self@.ports.len() as int,
                index as int,
                duration_nanos(timeout),
                result,
                StepView::Done(Ok(None)),
            ),
            r matches ReceiveStep::Poll { timeout: next, .. } ==> next == timeout,
    {
        if let Ok(Some(message)) = result {
            return ReceiveStep::Done(Ok(Some(message)));
        }
        if index < self.ports.len() - 1 {
            ReceiveStep::Poll { index: index + 1, timeout }
        } else {
            ReceiveStep::Done(Ok(None))
        }
    }

    /// Starts to close: the first port is closed, where there is one.
    pub fn start_close(&self) -> (r: CloseStep)
        ensures
            r == close_step(self@.ports.len() as int, 0),
    {
        if self.ports.len() == 0 {
            return CloseStep::Done(Ok(()));
        }
        CloseStep::Close { index: 0 }
    }

    /// Goes on with closing after closing the port at `index` gave `_result`, whatever it was.
    pub fn close_next(&self, index: usize, _result: Result<(), PortError>) -> (r: CloseStep)
        requires
            index < self@.ports.len(),
        ensures
            r == close_step(self@.ports.len() as int, index + 1),
            r matches CloseStep::Close { index: next } ==> next == index + 1,
    {
        if index < self.ports.len() - 1 {
            CloseStep::Close { index: index + 1 }
        } else {
            CloseStep::Done(Ok(()))
        }
    }
}

impl<P: AsyncPort> MultiplexPort<P> {
    /// The first port that is active.
    fn find_active(&self) -> (r: Option<usize>)
        ensures
            first_active(self@.ports, r),
    {
        let mut i: usize = 0;
        while i < self.ports.len()
            invariant
                i <= self.ports@.len(),
                forall|j: int| 0 <= j < i ==> answers(#[trigger] self.ports@[j], false),
            decreases self.ports@.len() - i,
        {
            let active = self.ports[i].is_active();
            assert(answers(self.ports@[i as int], active));
            if active {
                return Some(i);
            }
            i = i + 1;
        }
        None
    }

    /// Starts to send: the message goes to the first active port.
    pub fn start_send(&self, message: PortMessage) -> (r: SendStep)
        ensures
            exists|found: Option<usize>| #[trigger]
                first_active(self@.ports, found) && r == send_step(found, message),
    {
        let found = self.find_active();
        assert(first_active(self@.ports, found));
        match found {
            Some(index) => SendStep::Forward { index, message },
            None => SendStep::Done(Err(PortError::Closed)),
        }
    }

    /// Goes on with a receive after the port at `index`, polled for `timeout`, gave `result`. A
    /// message ends it; when no port had one, the first active port has to receive.
    pub fn receive_any_next(
        &self,
        index: usize,
        timeout: Duration,
        result: Result<Option<PortMessage>, PortError>,
    ) -> (r: ReceiveStep)
        requires
            index < self@.ports.len(),
        ensures
            exists|found: Option<usize>|
                {
                    &&& (!(result matches Ok(Some(_))) && index + 1 == self@.ports.len())
                        ==> first_active(self@.ports, found)
                    &&& r@ == polled_step(
                        self@.ports.len() as int,
                        index as int,
                        duration_nanos(timeout),
                        result,
                        #[trigger] receive_step(found),
                    )
                },
            r matches ReceiveStep::Poll { timeout: next, .. } ==> next == timeout,
    {
        if let Ok(Some(message)) = result {
            assert(polled_step(
                self@.ports.len() as int,
                index as int,
                duration_nanos(timeout),
                result,
                receive_step(None),
            ) == StepView::Done(Ok(Some(message))));
            return ReceiveStep::Done(Ok(Some(message)));
        }
        if index < self.ports.len() - 1 {
            assert(polled_step(
                self@.ports.len() as int,
                index as int,
                duration_nanos(timeout),
                result,
                receive_step(None),
            ) is Poll);
            return ReceiveStep::Poll { index: index + 1, timeout };
        }
        let found = self.find_active();
        assert(receive_step(found) == polled_step(
            self@.ports.len() as int,
            index as int,
            duration_nanos(timeout),
            result,
            receive_step(found),
        ));
        match found {
            Some(i) => ReceiveStep::Receive { index: i },
            None => ReceiveStep::Done(Ok(None)),
        }
    }
}

impl<P: AsyncPort> AsyncPort for MultiplexPort<P> {
    /// Whether some port is active.
    fn is_active(&self) -> (r: bool)
        ensures
            exists|found: Option<usize>| #[trigger]
                first_active(self@.ports, found) && r == (found is Some),
    {
        let found = self.find_active();
        assert(first_active(self@.ports, found));
        found.is_some()
    }

    fn endpoint(&self) -> (r: &str)
        ensures
            r@ == self@.name,
    {
        self.endpoint_name.as_str()
    }
}

/// What a receive or a poll over `count` ports comes to, from polling the one at `index` for
/// `nanos` on, where `results` says what polling each port gives and `last` how it ends without a
/// message. Each further poll is the one that the step before it names.
pub open spec fn polling_from(
    count: int,
    index: int,
    nanos: nat,
    results: Seq<Result<Option<PortMessage>, PortError>>,
    last: StepView,
) -> StepView
    decreases count - index,
{
    let step = polled_step(count, index, nanos, results[index], last);
    match step {
        StepView::Poll { index: next, nanos: time } => if index < next < count {
            polling_from(count, next, time, results, last)
        } else {
            step
        },
        _ => step,
    }
}

/// The ports that are polled in that, from the one at `index` on, each with the time that it is
/// polled for.
pub open spec fn polls_made(
    count: int,
    index: int,
    nanos: nat,
    results: Seq<Result<Option<PortMessage>, PortError>>,
    last: StepView,
) -> Seq<(int, nat)>
    decreases count - index,
{
    let rest = match polled_step(count, index, nanos, results[index], last) {
        StepView::Poll { index: next, nanos: time } => if index < next < count {
            polls_made(count, next, time, results, last)
        } else {
            seq![(next, time)]
        },
        _ => Seq::empty(),
    };
    seq![(index, nanos)] + rest
}

/// How many ports are polled in that, from the one at `index` on.
pub open spec fn polls_from(
    count: int,
    index: int,
    results: Seq<Result<Option<PortMessage>, PortError>>,
    last: StepView,
) -> nat
    decreases count - index,
{
    match polled_step(count, index, 0, results[index], last) {
        StepView::Poll { index: next, .. } => if index < next < count {
            1 + polls_from(count, next, results, last)
        } else {
            2
        },
        _ => 1,
    }
}

/// Whether none of the first `k` results is a message.
pub open spec fn no_message_before(
    results: Seq<Result<Option<PortMessage>, PortError>>,
    k: int,
) -> bool {
    forall|i: int| 0 <= i < k ==> !(#[trigger] results[i] matches Ok(Some(_)))
}

proof fn lemma_polling_from(
    index: int,
    nanos: nat,
    results: Seq<Result<Option<PortMessage>, PortError>>,
    last: StepView,
    k: int,
)
    requires
        0 <= index <= k <= results.len(),
        index < results.len(),
        !(last is Poll),
        no_message_before(results, k),
        k < results.len() ==> results[k] matches Ok(Some(_)),
    ensures
        polling_from(results.len() as int, index, nanos, results, last) == (if k < results.len() {
            StepView::Done(results[k])
        } else {
            last
        }),
        polls_from(results.len() as int, index, results, last) == (if k < results.len() {
            k + 1 - index
        } else {
            results.len() - index
        }),
        polls_made(results.len() as int, index, nanos, results, last) == Seq::new(
            (if k < results.len() {
                k + 1 - index
            } else {
                results.len() - index
            }) as nat,
            |i: int| (index + i, nanos),
        ),
    decreases results.len() - index,
{
    if index < k {
        assert(!(results[index] matches Ok(Some(_))));
        if index + 1 < results.len() {
            lemma_polling_from(index + 1, nanos, results, last, k);
        }
    }
    assert(polls_made(results.len() as int, index, nanos, results, last) =~= Seq::new(
        (if k < results.len() {
            k + 1 - index
        } else {
            results.len() - index
        }) as nat,
        |i: int| (index + i, nanos),
    ));
}

/// A receive polls the ports in order, none left out and each for the same time, gives the first
/// message that it finds, and asks no port after that. Where none of them has one, errors
/// included, it goes on with the port that was found active, and without such a port there is no
/// message.
pub proof fn law_receive_any_gives_the_first_message(
    nanos: nat,
    results: Seq<Result<Option<PortMessage>, PortError>>,
    found: Option<usize>,
    k: int,
)
    requires
        0 <= k <= results.len(),
        results.len() > 0,
        no_message_before(results, k),
        k < results.len() ==> results[k] matches Ok(Some(_)),
    ensures
        polling_from(results.len() as int, 0, nanos, results, receive_step(found)) == (if k
            < results.len() {
            StepView::Done(results[k])
        } else {
            receive_step(found)
        }),
        polls_from(results.len() as int, 0, results, receive_step(found)) == (if k
            < results.len() {
            k + 1
        } else {
            results.len() as int
        }),
        polls_made(results.len() as int, 0, nanos, results, receive_step(found)) == Seq::new(
            (if k < results.len() {
                k + 1
            } else {
                results.len() as int
            }) as nat,
            |i: int| (i, nanos),
        ),
{
    lemma_polling_from(0, nanos, results, receive_step(found), k);
    assert(polls_made(results.len() as int, 0, nanos, results, receive_step(found)) =~= Seq::new(
        (if k < results.len() {
            k + 1
        } else {
            results.len() as int
        }) as nat,
        |i: int| (i, nanos),
    ));
}

/// A poll polls the ports in order, none left out and each for the same time, gives the first
/// message that it finds, and asks no port after that. There is no message where none of them has
/// one, errors included.
pub proof fn law_poll_gives_the_first_message(
    nanos: nat,
    results: Seq<Result<Option<PortMessage>, PortError>>,
    k: int,
)
    requires
        0 <= k <= results.len(),
        results.len() > 0,
        no_message_before(results, k),
        k < results.len() ==> results[k] matches Ok(Some(_)),
    ensures
        polling_from(results.len() as int, 0, nanos, results, StepView::Done(Ok(None))) == (if k
            < results.len() {
            StepView::Done(results[k])
        } else {
            StepView::Done(Ok(None))
        }),
        polls_from(results.len() as int, 0, results, StepView::Done(Ok(None))) == (if k
            < results.len() {
            k + 1
        } else {
            results.len() as int
        }),
        polls_made(results.len() as int, 0, nanos, results, StepView::Done(Ok(None))) == Seq::new(
            (if k < results.len() {
                k + 1
            } else {
                results.len() as int
            }) as nat,
            |i: int| (i, nanos),
        ),
{
    lemma_polling_from(0, nanos, results, StepView::Done(Ok(None)), k);
    let polls = polls_made(results.len() as int, 0, nanos, results, StepView::Done(Ok(None)));
    assert(polls =~= Seq::new(
        (if k < results.len() {
            k + 1
        } else {
            results.len() as int
        }) as nat,
        |i: int| (i, nanos),
    ));
}

/// Polling every port for its share of a timeout takes no longer than the timeout.
pub proof fn law_shares_fit_the_timeout(nanos: nat, count: nat)
    requires
        0 < count < 0x1_0000_0000,
    ensures
        count * (nanos / timeout_parts(count)) <= nanos,
{
    assert(timeout_parts(count) == count);
    assert(count * (nanos / count) <= nanos) by (nonlinear_arith)
        requires
            count > 0,
    ;
}

/// The ports that closing goes through, from the one at `index` on.
pub open spec fn closing_order(count: int, index: int) -> Seq<usize>
    decreases count - index,
{
    match close_step(count, index) {
        CloseStep::Close { index: port } => if index <= port < count {
            seq![port] + closing_order(count, port + 1)
        } else {
            seq![port]
        },
        CloseStep::Done(_) => Seq::empty(),
    }
}

proof fn lemma_closing_order(count: usize, index: int)
    requires
        0 <= index <= count,
    ensures
        closing_order(count as int, index) == Seq::new(
            (count - index) as nat,
            |i: int| (index + i) as usize,
        ),
    decreases count - index,
{
    if index < count {
        lemma_closing_order(count, index + 1);
    }
    assert(closing_order(count as int, index) =~= Seq::new(
        (count - index) as nat,
        |i: int| (index + i) as usize,
    ));
}

/// Closing goes through every port, each once and in order, and then succeeds. What closing one
/// of them returns has no part in it.
pub proof fn law_close_reaches_every_port(count: usize)
    ensures
        closing_order(count as int, 0) == Seq::new(count as nat, |i: int| i as usize),
        close_step(count as int, count as int) == CloseStep::Done(Ok(())),
{
    lemma_closing_order(count, 0);
    assert(closing_order(count as int, 0) =~= Seq::new(count as nat, |i: int| i as usize));
}

/// At most one port is the first active one, where every port answers in one way only.
pub proof fn law_first_active_is_unique<P: AsyncPort>(
    ports: Seq<P>,
    one: Option<usize>,
    other: Option<usize>,
)
    requires
        first_active(ports, one),
        first_active(ports, other),
        forall|i: int|
            0 <= i < ports.len() ==> !(answers(#[trigger] ports[i], true) && answers(
                ports[i],
                false,
            )),
    ensures
        one == other,
{
    if let Some(a) = one {
        let _ = ports[a as int];
    }
    if let Some(b) = other {
        let _ = ports[b as int];
    }
}

/// A multiplexer of channel ports sends to the first of them that is active, and is active
/// itself exactly when one of them is.
pub proof fn law_channels_are_tried_in_order(ports: Seq<ChannelPort>, found: Option<usize>)
    requires
        first_active(ports, found),
    ensures
        found is Some <==> exists|i: int| 0 <= i < ports.len() && (#[trigger] ports[i])@.active,
        found matches Some(index) ==> index < ports.len() && ports[index as int]@.active && forall|
            i: int,
        |
            0 <= i < index ==> !(#[trigger] ports[i])@.active,
{
    if let Some(index) = found {
        assert(ports[index as int]@.active);
    }
}

/// A new multiplexer has no ports, and is named by what the given name converts to.
pub proof fn law_new_multiplexer_is_empty<P, S: Into<String>>(name: S, r: MultiplexPort<P>)
    requires
        call_ensures(MultiplexPort::<P>::new::<S>, (name,), r),
    ensures
        r@.ports.len() == 0,
        exists|text: String| #[trigger] call_ensures(S::into, (name,), text) && r@.name == text@,
{
    let text = choose|text: String| #[trigger] converts_to(name, text) && r@.name == text@;
    assert(call_ensures(S::into, (name,), text));
}

/// A port that is added comes last; the ports before it, and the name, stay as they were.
pub proof fn law_added_port_comes_last<P>(mx: &mut MultiplexPort<P>, port: P)
    requires
        call_ensures(MultiplexPort::<P>::add_port, (mx, port), ()),
    ensures
        final(mx)@.ports.len() == old(mx)@.ports.len() + 1,
        final(mx)@.ports.last() == port,
        forall|i: int|
            0 <= i < old(mx)@.ports.len() ==> #[trigger] final(mx)@.ports[i] == old(mx)@.ports[i],
        final(mx)@.name == old(mx)@.name,
{
}

/// The port that is lent out is the one that was asked for. What becomes of it while it is lent
/// becomes of the multiplexer, and nothing else does.
pub proof fn law_port_is_lent_in_place<P>(mx: &mut MultiplexPort<P>, index: usize, port: &mut P)
    requires
        index < old(mx)@.ports.len(),
        call_ensures(MultiplexPort::<P>::port, (mx, index), port),
    ensures
        *old(port) == old(mx)@.ports[index as int],
        *final(port) == final(mx)@.ports[index as int],
        final(mx)@.ports.len() == old(mx)@.ports.len(),
        forall|i: int|
            0 <= i < old(mx)@.ports.len() && i != index ==> #[trigger] final(mx)@.ports[i]
                == old(mx)@.ports[i],
        final(mx)@.name == old(mx)@.name,
{
}

/// What a multiplexer answers is what it is: how many ports it has, and its name.
pub proof fn law_multiplexer_answers_for_itself<P: AsyncPort>(
    mx: MultiplexPort<P>,
    count: usize,
    name: &str,
)
    requires
        call_ensures(MultiplexPort::<P>::port_count, (&mx,), count),
        call_ensures(<MultiplexPort<P> as AsyncPort>::endpoint, (&mx,), name),
    ensures
        count == mx@.ports.len(),
        name@ == mx@.name,
{
}

/// Without ports, receiving and polling fail at once because everything is closed. Otherwise
/// both begin with the first port. A receive asks it for fifty milliseconds; a poll asks it for
/// the largest time that, given to as many ports as there are (their number in 32 bits), does
/// not exceed the timeout.
pub proof fn law_first_port_is_asked_first<P>(
    mx: MultiplexPort<P>,
    receiving: ReceiveStep,
    timeout: Duration,
    polling: ReceiveStep,
)
    requires
        call_ensures(MultiplexPort::<P>::receive_any, (&mx,), receiving),
        call_ensures(MultiplexPort::<P>::start_poll, (&mx, timeout), polling),
    ensures
        mx@.ports.len() == 0 ==> receiving == ReceiveStep::Done(Err(PortError::Closed)),
        mx@.ports.len() == 0 ==> polling == ReceiveStep::Done(Err(PortError::Closed)),
        mx@.ports.len() > 0 ==> (receiving matches ReceiveStep::Poll { index, timeout: time }
            && index == 0 && duration_nanos(time) == 50_000_000),
        mx@.ports.len() > 0 && mx@.ports.len() % 0x1_0000_0000 != 0 ==> (
        polling matches ReceiveStep::Poll { index, timeout: time } && index == 0 && (
        mx@.ports.len() % 0x1_0000_0000) * duration_nanos(time) <= duration_nanos(timeout) < (
        mx@.ports.len() % 0x1_0000_0000) * (duration_nanos(time) + 1)),
{
    if mx@.ports.len() % 0x1_0000_0000 != 0 {
        lemma_share(duration_nanos(timeout), mx@.ports.len() % 0x1_0000_0000);
    }
}

/// The quotient is the largest number whose multiple does not exceed the dividend.
proof fn lemma_share(whole: nat, parts: nat)
    requires
        parts > 0,
    ensures
        parts * (whole / parts) <= whole < parts * (whole / parts + 1),
{
    assert(parts * (whole / parts) <= whole < parts * (whole / parts + 1)) by (nonlinear_arith)
        requires
            parts > 0,
    ;
}

/// A poll that got a message from a port ends with that very message. Where it got none, be it
/// for an error, it goes on with the very next port, for the same time, and ends without a
/// message behind the last one.
pub proof fn law_poll_goes_on_with_the_next_port<P>(
    mx: MultiplexPort<P>,
    index: usize,
    timeout: Duration,
    result: Result<Option<PortMessage>, PortError>,
    step: ReceiveStep,
)
    requires
        index < mx@.ports.len(),
        call_ensures(MultiplexPort::<P>::poll_next, (&mx, index, timeout, result), step),
    ensures
        result matches Ok(Some(message)) ==> step == ReceiveStep::Done(Ok(Some(message))),
        !(result matches Ok(Some(_))) && index + 1 < mx@.ports.len() ==> (
        step matches ReceiveStep::Poll { index: next, timeout: time } && next == index + 1 && time
            == timeout),
        !(result matches Ok(Some(_))) && index + 1 == mx@.ports.len() ==> step
            == ReceiveStep::Done(Ok(None)),
{
}

/// A receive that got a message from a port ends with that very message. Where it got none, be
/// it for an error, it goes on with the very next port, for the same time. Behind the last one
/// it waits on the first port that is active, wherever that stands, and only where no port is
/// active it ends without a message. Here `first` is the first port that answers only that it is
/// active, or their number where there is none, and all before it answer only that they are not.
pub proof fn law_receive_falls_back_on_the_first_active_port<P: AsyncPort>(
    mx: MultiplexPort<P>,
    index: usize,
    timeout: Duration,
    result: Result<Option<PortMessage>, PortError>,
    step: ReceiveStep,
    first: int,
)
    requires
        index < mx@.ports.len(),
        call_ensures(MultiplexPort::<P>::receive_any_next, (&mx, index, timeout, result), step),
        0 <= first <= mx@.ports.len(),
        forall|i: int|
            0 <= i < first ==> !call_ensures(P::is_active, (&(#[trigger] mx@.ports[i]),), true),
        first < mx@.ports.len() ==> !call_ensures(P::is_active, (&mx@.ports[first],), false),
    ensures
        result matches Ok(Some(message)) ==> step == ReceiveStep::Done(Ok(Some(message))),
        !(result matches Ok(Some(_))) && index + 1 < mx@.ports.len() ==> (
        step matches ReceiveStep::Poll { index: next, timeout: time } && next == index + 1 && time
            == timeout),
        !(result matches Ok(Some(_))) && index + 1 == mx@.ports.len() && first < mx@.ports.len()
            ==> (step matches ReceiveStep::Receive { index: port } && port == first),
        !(result matches Ok(Some(_))) && index + 1 == mx@.ports.len() && first == mx@.ports.len()
            ==> step == ReceiveStep::Done(Ok(None)),
{
    if !(result matches Ok(Some(_))) && index + 1 == mx@.ports.len() {
        let found = choose|found: Option<usize>|
            first_active(mx@.ports, found) && step@ == #[trigger] receive_step(found);
        lemma_first_active(mx@.ports, found, first);
    }
}

/// Where the ports before `first` answer only that they are not active, and the one there only
/// that it is, that one is found.
proof fn lemma_first_active<P: AsyncPort>(ports: Seq<P>, found: Option<usize>, first: int)
    requires
        first_active(ports, found),
        0 <= first <= ports.len(),
        forall|i: int|
            0 <= i < first ==> !call_ensures(P::is_active, (&(#[trigger] ports[i]),), true),
        first < ports.len() ==> !call_ensures(P::is_active, (&ports[first],), false),
    ensures
        first < ports.len() ==> (found matches Some(index) && index == first),
        first == ports.len() ==> found is None,
{
    match found {
        Some(index) => {
            let port = ports[index as int];
            assert(answers(port, true));
            if first < index {
                assert(answers(ports[first], false));
            }
        },
        None => {
            if first < ports.len() {
                assert(answers(ports[first], false));
            }
        },
    }
}

/// A message is sent, as it is, by the first port that is active, and sending fails because
/// everything is closed exactly where no port is. The multiplexer is active exactly where one of
/// its ports is. Here `first` is the first port that answers only that it is active, or their
/// number where there is none, and all before it answer only that they are not.
pub proof fn law_send_goes_to_the_first_active_port<P: AsyncPort>(
    mx: MultiplexPort<P>,
    message: PortMessage,
    step: SendStep,
    active: bool,
    first: int,
)
    requires
        call_ensures(MultiplexPort::<P>::start_send, (&mx, message), step),
        call_ensures(<MultiplexPort<P> as AsyncPort>::is_active, (&mx,), active),
        0 <= first <= mx@.ports.len(),
        forall|i: int|
            0 <= i < first ==> !call_ensures(P::is_active, (&(#[trigger] mx@.ports[i]),), true),
        first < mx@.ports.len() ==> !call_ensures(P::is_active, (&mx@.ports[first],), false),
    ensures
        first < mx@.ports.len() ==> (step matches SendStep::Forward { index, message: same }
            && index == first && same == message),
        first == mx@.ports.len() ==> step == SendStep::Done(Err(PortError::Closed)),
        active == (first < mx@.ports.len()),
{
    let found = choose|found: Option<usize>| #[trigger]
        first_active(mx@.ports, found) && step == send_step(found, message);
    lemma_first_active(mx@.ports, found, first);
    let other = choose|found: Option<usize>| #[trigger]
        first_active(mx@.ports, found) && active == (found is Some);
    lemma_first_active(mx@.ports, other, first);
}

/// A whole poll, step by step: each step asks the port that it names for the time that it names,
/// and the next step takes up what came of that. The ports asked are the first, the second and
/// so on, none of them left out, all for the same share of the timeout. The first message ends
/// the poll and is its result; without one, it ends behind the last port, without a message.
pub proof fn law_poll_asks_every_port_in_order<P>(
    states: Seq<MultiplexPort<P>>,
    count: nat,
    timeout: Duration,
    steps: Seq<ReceiveStep>,
    results: Seq<Result<Option<PortMessage>, PortError>>,
)
    requires
        0 < count,
        count % 0x1_0000_0000 != 0,
        states.len() == steps.len() == results.len() + 1,
        forall|i: int| 0 <= i < states.len() ==> (#[trigger] states[i])@.ports.len() == count,
        call_ensures(MultiplexPort::<P>::start_poll, (&states[0], timeout), steps[0]),
        forall|i: int| 0 <= i < results.len() ==> #[trigger] steps[i] is Poll,
        forall|i: int|
            #![trigger results[i]]
            0 <= i < results.len() ==> call_ensures(
                MultiplexPort::<P>::poll_next,
                (&states[i + 1], steps[i]->Poll_index, steps[i]->timeout, results[i]),
                steps[i + 1],
            ),
    ensures
        forall|i: int|
            0 <= i < steps.len() && (i < results.len() || steps[i] is Poll) ==> (
            #[trigger] steps[i] matches ReceiveStep::Poll { index, timeout: time } && index == i
                && i < count && (count % 0x1_0000_0000) * duration_nanos(time) <= duration_nanos(
                timeout,
            ) < (count % 0x1_0000_0000) * (duration_nanos(time) + 1)),
        forall|i: int|
            0 <= i < results.len() - 1 ==> !(#[trigger] results[i] matches Ok(Some(_))),
        !(steps.last() is Receive),
        results.len() > 0 && (results.last() matches Ok(Some(_))) ==> steps.last()
            == ReceiveStep::Done(results.last()),
        steps.last() is Done && !(results.len() > 0 && results.last() matches Ok(Some(_)))
            ==> results.len() == count && steps.last() == ReceiveStep::Done(Ok(None)),
{
    lemma_share(duration_nanos(timeout), count % 0x1_0000_0000);
    assert(states[0]@.ports.len() == count);
    assert forall|i: int|
        0 <= i < steps.len() && (i < results.len() || steps[i] is Poll) implies (
    #[trigger] steps[i] matches ReceiveStep::Poll { index, timeout: time } && index == i && i
        < count && (count % 0x1_0000_0000) * duration_nanos(time) <= duration_nanos(timeout)
        < (count % 0x1_0000_0000) * (duration_nanos(time) + 1)) by {
        lemma_poll_run(states, count, timeout, steps, results, i);
    }
    assert forall|i: int| 0 <= i < results.len() - 1 implies !(
    #[trigger] results[i] matches Ok(Some(_))) by {
        let _ = results[i + 1];
        assert(steps[i] is Poll);
        assert(steps[i + 1] is Poll);
    }
    if results.len() > 0 {
        let i = results.len() - 1;
        let _ = results[i];
        assert(steps[i] is Poll);
        assert(states[i + 1]@.ports.len() == count);
    }
}

/// The step at `k`, where it asks a port, asks the one at `k`, for as long as the first step asks
/// the first port.
proof fn lemma_poll_run<P>(
    states: Seq<MultiplexPort<P>>,
    count: nat,
    timeout: Duration,
    steps: Seq<ReceiveStep>,
    results: Seq<Result<Option<PortMessage>, PortError>>,
    k: int,
)
    requires
        0 < count,
        states.len() == steps.len() == results.len() + 1,
        forall|i: int| 0 <= i < states.len() ==> (#[trigger] states[i])@.ports.len() == count,
        call_ensures(MultiplexPort::<P>::start_poll, (&states[0], timeout), steps[0]),
        forall|i: int| 0 <= i < results.len() ==> #[trigger] steps[i] is Poll,
        forall|i: int|
            #![trigger results[i]]
            0 <= i < results.len() ==> call_ensures(
                MultiplexPort::<P>::poll_next,
                (&states[i + 1], steps[i]->Poll_index, steps[i]->timeout, results[i]),
                steps[i + 1],
            ),
        0 <= k < steps.len(),
    ensures
        k < results.len() ==> steps[k] is Poll,
        steps[k] matches ReceiveStep::Poll { index, timeout: time } ==> index == k && k < count
            && duration_nanos(time) == duration_nanos(timeout) / (count % 0x1_0000_0000),
    decreases k,
{
    assert(states[0]@.ports.len() == count);
    if k < results.len() {
        let _ = results[k];
    }
    if k > 0 {
        lemma_poll_run(states, count, timeout, steps, results, k - 1);
        let _ = results[k - 1];
        assert(states[k]@.ports.len() == count);
    }
}

/// A whole receive, step by step: each step asks the port that it names for the time that it
/// names, and the next step takes up what came of that. The ports asked are the first, the
/// second and so on, none of them left out, each for fifty milliseconds. The first message ends
/// the receive and is its result. Without one, behind the last port, the receive waits on the
/// first active port, and gives nothing only where there is none; here `first` is, in the end,
/// the first port that answers only that it is active, or their number where there is none, and
/// all before it answer only that they are not.
pub proof fn law_receive_asks_every_port_in_order<P: AsyncPort>(
    states: Seq<MultiplexPort<P>>,
    count: nat,
    steps: Seq<ReceiveStep>,
    results: Seq<Result<Option<PortMessage>, PortError>>,
    first: int,
)
    requires
        0 < count,
        states.len() == steps.len() == results.len() + 1,
        forall|i: int| 0 <= i < states.len() ==> (#[trigger] states[i])@.ports.len() == count,
        call_ensures(MultiplexPort::<P>::receive_any, (&states[0],), steps[0]),
        forall|i: int| 0 <= i < results.len() ==> #[trigger] steps[i] is Poll,
        forall|i: int|
            #![trigger results[i]]
            0 <= i < results.len() ==> call_ensures(
                MultiplexPort::<P>::receive_any_next,
                (&states[i + 1], steps[i]->Poll_index, steps[i]->timeout, results[i]),
                steps[i + 1],
            ),
        0 <= first <= count,
        forall|i: int|
            0 <= i < first ==> !call_ensures(
                P::is_active,
                (&(#[trigger] states.last()@.ports[i]),),
                true,
            ),
        first < count ==> !call_ensures(P::is_active, (&states.last()@.ports[first],), false),
    ensures
        forall|i: int|
            0 <= i < steps.len() && (i < results.len() || steps[i] is Poll) ==> (
            #[trigger] steps[i] matches ReceiveStep::Poll { index, timeout: time } && index == i
                && i < count && duration_nanos(time) == 50_000_000),
        forall|i: int|
            0 <= i < results.len() - 1 ==> !(#[trigger] results[i] matches Ok(Some(_))),
        results.len() > 0 && (results.last() matches Ok(Some(_))) ==> steps.last()
            == ReceiveStep::Done(results.last()),
        !(steps.last() is Poll) && !(results.len() > 0 && results.last() matches Ok(Some(_)))
            ==> results.len() == count && (if first < count {
            steps.last() matches ReceiveStep::Receive { index } && index == first
        } else {
            steps.last() == ReceiveStep::Done(Ok(None))
        }),
{
    assert(states[0]@.ports.len() == count);
    assert forall|i: int|
        0 <= i < steps.len() && (i < results.len() || steps[i] is Poll) implies (
    #[trigger] steps[i] matches ReceiveStep::Poll { index, timeout: time } && index == i && i
        < count && duration_nanos(time) == 50_000_000) by {
        lemma_receive_run(states, count, steps, results, i);
    }
    assert forall|i: int| 0 <= i < results.len() - 1 implies !(
    #[trigger] results[i] matches Ok(Some(_))) by {
        let _ = results[i + 1];
        assert(steps[i] is Poll);
        assert(steps[i + 1] is Poll);
    }
    if results.len() > 0 {
        let i = results.len() - 1;
        let _ = results[i];
        assert(steps[i] is Poll);
        let mx = states[i + 1];
        assert(mx@.ports.len() == count);
        assert(mx == states.last());
        law_receive_falls_back_on_the_first_active_port(
            mx,
            steps[i]->Poll_index,
            steps[i]->timeout,
            results[i],
            steps[i + 1],
            first,
        );
    }
}

/// The step at `k`, where it asks a port, asks the one at `k`, for as long as the first step asks
/// the first port.
proof fn lemma_receive_run<P: AsyncPort>(
    states: Seq<MultiplexPort<P>>,
    count: nat,
    steps: Seq<ReceiveStep>,
    results: Seq<Result<Option<PortMessage>, PortError>>,
    k: int,
)
    requires
        0 < count,
        states.len() == steps.len() == results.len() + 1,
        forall|i: int| 0 <= i < states.len() ==> (#[trigger] states[i])@.ports.len() == count,
        call_ensures(MultiplexPort::<P>::receive_any, (&states[0],), steps[0]),
        forall|i: int| 0 <= i < results.len() ==> #[trigger] steps[i] is Poll,
        forall|i: int|
            #![trigger results[i]]
            0 <= i < results.len() ==> call_ensures(
                MultiplexPort::<P>::receive_any_next,
                (&states[i + 1], steps[i]->Poll_index, steps[i]->timeout, results[i]),
                steps[i + 1],
            ),
        0 <= k < steps.len(),
    ensures
        k < results.len() ==> steps[k] is Poll,
        steps[k] matches ReceiveStep::Poll { index, timeout: time } ==> index == k && k < count
            && duration_nanos(time) == 50_000_000,
    decreases k,
{
    assert(states[0]@.ports.len() == count);
    if k < results.len() {
        let _ = results[k];
    }
    if k > 0 {
        lemma_receive_run(states, count, steps, results, k - 1);
        let _ = results[k - 1];
        assert(states[k]@.ports.len() == count);
    }
}

/// A whole close, step by step: the ports closed are the first, the second and so on, none of
/// them left out and none twice, whatever closing one of them gives. Behind the last one, and
/// not before, closing is done, and has succeeded.
pub proof fn law_close_closes_every_port_in_order<P>(
    states: Seq<MultiplexPort<P>>,
    count: nat,
    steps: Seq<CloseStep>,
    results: Seq<Result<(), PortError>>,
)
    requires
        states.len() == steps.len() == results.len() + 1,
        forall|i: int| 0 <= i < states.len() ==> (#[trigger] states[i])@.ports.len() == count,
        call_ensures(MultiplexPort::<P>::start_close, (&states[0],), steps[0]),
        forall|i: int| 0 <= i < results.len() ==> #[trigger] steps[i] is Close,
        forall|i: int|
            #![trigger results[i]]
            0 <= i < results.len() ==> call_ensures(
                MultiplexPort::<P>::close_next,
                (&states[i + 1], steps[i]->index, results[i]),
                steps[i + 1],
            ),
    ensures
        results.len() <= count,
        forall|i: int|
            0 <= i < steps.len() && i < count ==> (#[trigger] steps[i] matches CloseStep::Close {
                index,
            } && index == i),
        results.len() == count ==> steps.last() == CloseStep::Done(Ok(())),
{
    assert forall|i: int| 0 <= i < steps.len() implies i <= count && (i < count ==> (
    #[trigger] steps[i] matches CloseStep::Close { index } && index == i)) && (i == count
        ==> steps[i] == CloseStep::Done(Ok(()))) by {
        lemma_close_run(states, count, steps, results, i);
    }
    assert(steps[results.len() as int] == steps.last());
}

/// The step at `k` closes the port at `k`, and is the end behind the last one.
proof fn lemma_close_run<P>(
    states: Seq<MultiplexPort<P>>,
    count: nat,
    steps: Seq<CloseStep>,
    results: Seq<Result<(), PortError>>,
    k: int,
)
    requires
        states.len() == steps.len() == results.len() + 1,
        forall|i: int| 0 <= i < states.len() ==> (#[trigger] states[i])@.ports.len() == count,
        call_ensures(MultiplexPort::<P>::start_close, (&states[0],), steps[0]),
        forall|i: int| 0 <= i < results.len() ==> #[trigger] steps[i] is Close,
        forall|i: int|
            #![trigger results[i]]
            0 <= i < results.len() ==> call_ensures(
                MultiplexPort::<P>::close_next,
                (&states[i + 1], steps[i]->index, results[i]),
                steps[i + 1],
            ),
        0 <= k < steps.len(),
    ensures
        k <= count,
        k < count ==> (steps[k] matches CloseStep::Close { index } && index == k),
        k == count ==> steps[k] == CloseStep::Done(Ok(())),
    decreases k,
{
    assert(states[0]@.ports.len() == count);
    if k > 0 {
        lemma_close_run(states, count, steps, results, k - 1);
        let _ = results[k - 1];
        assert(states[k]@.ports.len() == count);
    }
}

} // verus!
