use lau_port_v2::{
    AsyncPort, BufferedPort, BufferedStep, ChannelPort, MessageIds, OverflowStrategy, PollOutcome,
    PortError, PortMessage,
};
use std::time::Duration;
use tokio::runtime::{Builder, Runtime};

type Received = Result<Option<PortMessage>, PortError>;

trait Drive: AsyncPort {
    fn send_now(&mut self, message: PortMessage) -> Result<(), PortError>;
    fn receive_now(&mut self) -> Received;
    fn poll_now(&mut self, timeout: Duration) -> Received;
    fn close_now(&mut self) -> Result<(), PortError>;
}

fn runtime() -> Runtime {
    Builder::new_current_thread().enable_time().build().unwrap()
}

impl Drive for ChannelPort {
    fn send_now(&mut self, message: PortMessage) -> Result<(), PortError> {
        let message = self.start_send(message)?;
        let delivered = runtime().block_on(self.sender().send(message)).is_ok();
        self.finish_send(delivered)
    }

    fn receive_now(&mut self) -> Received {
        self.start_receive()?;
        let received = runtime().block_on(self.receiver().recv());
        self.finish_receive(received)
    }

    fn poll_now(&mut self, timeout: Duration) -> Received {
        let timeout = self.start_poll(timeout)?;
        let runtime = runtime();
        let _guard = runtime.enter();
        let wait = tokio::time::timeout(timeout, self.receiver().recv());
        let outcome = match runtime.block_on(wait) {
            Ok(Some(message)) => PollOutcome::Message(message),
            Ok(None) => PollOutcome::Disconnected,
            Err(_) => PollOutcome::Elapsed,
        };
        self.finish_poll(outcome)
    }

    fn close_now(&mut self) -> Result<(), PortError> {
        self.close()
    }
}

impl<P: Drive> Drive for BufferedPort<P> {
    fn send_now(&mut self, message: PortMessage) -> Result<(), PortError> {
        self.send(message)
    }

    fn receive_now(&mut self) -> Received {
        match self.start_receive() {
            BufferedStep::Done(result) => result,
            _ => {
                let result = self.inner().receive_now();
                self.finish_receive(result)
            }
        }
    }

    fn poll_now(&mut self, timeout: Duration) -> Received {
        match self.start_poll(timeout) {
            BufferedStep::Done(result) => result,
            BufferedStep::Poll(timeout) => {
                let result = self.inner().poll_now(timeout);
                self.finish_poll(result)
            }
            BufferedStep::Receive => unreachable!(),
        }
    }

    fn close_now(&mut self) -> Result<(), PortError> {
        self.start_close();
        self.inner().close_now()
    }
}

fn message(source: &str, content: &str) -> PortMessage {
    PortMessage::new(&mut MessageIds::new(), source, content)
}

fn buffered(
    capacity: usize,
    strategy: OverflowStrategy,
) -> (BufferedPort<ChannelPort>, ChannelPort) {
    let (inner, other) = ChannelPort::pair(16);
    (BufferedPort::new(inner, capacity, strategy), other)
}

fn fill(port: &mut BufferedPort<ChannelPort>, count: usize) -> Vec<bool> {
    (0..count).map(|i| port.send(message("s", &format!("m{i}"))).is_ok()).collect()
}

fn drain(port: &mut BufferedPort<ChannelPort>) -> Vec<String> {
    let mut contents = Vec::new();
    while port.buffered_count() > 0 {
        contents.push(port.receive_now().unwrap().unwrap().content);
    }
    contents
}

#[test]
fn buffered_send_and_receive() {
    let (ch, _other) = ChannelPort::pair(8);
    let mut bp = BufferedPort::new(ch, 16, OverflowStrategy::Refuse);
    bp.send(message("s", "buf-msg")).unwrap();
    assert_eq!(bp.buffered_count(), 1);
    let msg = bp.receive_now().unwrap().unwrap();
    assert_eq!(msg.content, "buf-msg");
    assert_eq!(bp.buffered_count(), 0);
}

#[test]
fn buffered_multiple_messages() {
    let (ch, _other) = ChannelPort::pair(16);
    let mut bp = BufferedPort::new(ch, 32, OverflowStrategy::Refuse);
    for i in 0..5 {
        bp.send(message("s", &format!("m{i}"))).unwrap();
    }
    assert_eq!(bp.buffered_count(), 5);
    for i in 0..5 {
        let msg = bp.receive_now().unwrap().unwrap();
        assert_eq!(msg.content, format!("m{i}"));
    }
}

#[test]
fn buffered_overflow_drop_oldest() {
    let (ch, _other) = ChannelPort::pair(16);
    let mut bp = BufferedPort::new(ch, 2, OverflowStrategy::DropOldest);
    bp.send(message("s", "first")).unwrap();
    bp.send(message("s", "second")).unwrap();
    bp.send(message("s", "third")).unwrap();
    assert_eq!(bp.buffered_count(), 2);
    assert_eq!(bp.dropped(), 1);
    let msg = bp.receive_now().unwrap().unwrap();
    assert_eq!(msg.content, "second");
}

#[test]
fn buffered_overflow_drop_newest() {
    let (ch, _other) = ChannelPort::pair(16);
    let mut bp = BufferedPort::new(ch, 2, OverflowStrategy::DropNewest);
    bp.send(message("s", "first")).unwrap();
    bp.send(message("s", "second")).unwrap();
    bp.send(message("s", "third")).unwrap();
    assert_eq!(bp.buffered_count(), 2);
    assert_eq!(bp.dropped(), 1);
    let msg = bp.receive_now().unwrap().unwrap();
    assert_eq!(msg.content, "first");
}

#[test]
fn buffered_overflow_refuse() {
    let (ch, _other) = ChannelPort::pair(16);
    let mut bp = BufferedPort::new(ch, 2, OverflowStrategy::Refuse);
    bp.send(message("s", "a")).unwrap();
    bp.send(message("s", "b")).unwrap();
    let err = bp.send(message("s", "c")).unwrap_err();
    assert_eq!(err, PortError::Full);
    assert_eq!(bp.buffered_count(), 2);
    assert_eq!(bp.stats().errors, 1);
}

#[test]
fn buffered_poll_from_buffer() {
    let (ch, _other) = ChannelPort::pair(8);
    let mut bp = BufferedPort::new(ch, 16, OverflowStrategy::Refuse);
    bp.send(message("s", "polled")).unwrap();
    let msg = bp.poll_now(Duration::from_millis(10)).unwrap().unwrap();
    assert_eq!(msg.content, "polled");
}

#[test]
fn buffered_close_clears_buffer() {
    let (ch, _other) = ChannelPort::pair(8);
    let mut bp = BufferedPort::new(ch, 16, OverflowStrategy::Refuse);
    bp.send(message("s", "x")).unwrap();
    assert_eq!(bp.buffered_count(), 1);
    bp.close_now().unwrap();
    assert_eq!(bp.buffered_count(), 0);
    assert!(!bp.is_active());
    assert_eq!(bp.receive_now(), Ok(None));
    assert_eq!(bp.poll_now(Duration::from_secs(1)), Ok(None));
}

#[test]
fn buffered_endpoint_delegates() {
    let (ch, _other) = ChannelPort::pair_named(8, "inner", "remote");
    let bp = BufferedPort::new(ch, 16, OverflowStrategy::Refuse);
    assert_eq!(bp.endpoint(), "inner");
}

#[test]
fn buffered_is_active_with_buffered() {
    let (ch, _other) = ChannelPort::pair(8);
    let mut bp = BufferedPort::new(ch, 16, OverflowStrategy::Refuse);
    bp.send(message("s", "x")).unwrap();
    assert!(bp.is_active());
    bp.inner().close().unwrap();
    assert!(bp.is_active());
    assert_eq!(bp.receive_now().unwrap().unwrap().content, "x");
    assert!(!bp.is_active());
}

#[test]
fn buffered_stats() {
    let (ch, _other) = ChannelPort::pair(8);
    let mut bp = BufferedPort::new(ch, 16, OverflowStrategy::Refuse);
    bp.send(message("s", "a")).unwrap();
    bp.send(message("s", "b")).unwrap();
    assert_eq!(bp.stats().sent, 2);
    bp.receive_now().unwrap();
    assert_eq!(bp.stats().received, 1);
}

#[test]
fn buffered_poll_timeout_empty() {
    let (ch, _other) = ChannelPort::pair(8);
    let mut bp = BufferedPort::new(ch, 16, OverflowStrategy::Refuse);
    let result = bp.poll_now(Duration::from_millis(20)).unwrap();
    assert!(result.is_none());
    assert_eq!(bp.stats().received, 0);
}

#[test]
fn buffered_fallthrough_to_inner() {
    let (inner_a, mut inner_b) = ChannelPort::pair(8);
    let mut bp = BufferedPort::new(inner_a, 4, OverflowStrategy::Refuse);
    inner_b.send_now(message("ib", "inner-msg")).unwrap();
    let msg = bp.receive_now().unwrap().unwrap();
    assert_eq!(msg.content, "inner-msg");
    assert_eq!(bp.stats().received, 1);
}

#[test]
fn buffered_poll_falls_through_to_inner() {
    let (mut bp, mut other) = buffered(4, OverflowStrategy::Refuse);
    other.send_now(message("o", "late")).unwrap();
    assert_eq!(bp.poll_now(Duration::from_secs(1)).unwrap().unwrap().content, "late");
    assert_eq!(bp.stats().received, 1);
}

#[test]
fn buffered_receive_counts_every_success() {
    let (mut bp, other) = buffered(4, OverflowStrategy::Refuse);
    drop(other);
    assert_eq!(bp.receive_now(), Ok(None));
    assert_eq!(bp.stats().received, 1);
    assert_eq!(bp.finish_receive_at(Err(PortError::Closed), 5), Err(PortError::Closed));
    assert_eq!(bp.stats().received, 1);
    assert_eq!(bp.finish_poll_at(Ok(None), 6), Ok(None));
    assert_eq!(bp.stats().received, 1);
    let m = message("a", "b");
    assert_eq!(bp.finish_poll_at(Ok(Some(m.clone())), 7), Ok(Some(m)));
    assert_eq!(bp.stats().received, 2);
    assert_eq!(bp.stats().last_activity, Some(7));
}

#[test]
fn drop_oldest_keeps_the_newest() {
    let (mut bp, _other) = buffered(3, OverflowStrategy::DropOldest);
    assert_eq!(fill(&mut bp, 5), vec![true; 5]);
    assert_eq!(bp.dropped(), 2);
    assert_eq!(bp.stats().dropped, 2);
    assert_eq!(bp.stats().sent, 5);
    assert_eq!(drain(&mut bp), vec!["m2", "m3", "m4"]);
    assert_eq!(bp.stats().received, 3);
}

#[test]
fn drop_newest_keeps_the_oldest() {
    let (mut bp, _other) = buffered(3, OverflowStrategy::DropNewest);
    assert_eq!(fill(&mut bp, 5), vec![true; 5]);
    assert_eq!(bp.dropped(), 2);
    assert_eq!(bp.stats().dropped, 2);
    assert_eq!(bp.stats().sent, 3);
    assert_eq!(drain(&mut bp), vec!["m0", "m1", "m2"]);
}

#[test]
fn refuse_turns_away_the_excess() {
    let (mut bp, _other) = buffered(3, OverflowStrategy::Refuse);
    assert_eq!(fill(&mut bp, 5), vec![true, true, true, false, false]);
    assert_eq!(bp.dropped(), 0);
    assert_eq!(bp.stats().errors, 2);
    assert_eq!(bp.stats().sent, 3);
    assert_eq!(drain(&mut bp), vec!["m0", "m1", "m2"]);
}

#[test]
fn drop_oldest_without_capacity_keeps_the_last() {
    let (mut bp, _other) = buffered(0, OverflowStrategy::DropOldest);
    assert_eq!(fill(&mut bp, 1), vec![true]);
    assert_eq!(bp.buffered_count(), 1);
    assert_eq!(bp.dropped(), 0);
    assert_eq!(bp.stats().dropped, 0);
    assert_eq!(fill(&mut bp, 3), vec![true; 3]);
    assert_eq!(bp.buffered_count(), 1);
    assert_eq!(bp.dropped(), 3);
    assert_eq!(bp.stats().dropped, 3);
    assert_eq!(bp.stats().sent, 4);
    assert_eq!(drain(&mut bp), vec!["m2"]);
    assert_eq!(bp.dropped(), 3);
}

#[test]
fn other_strategies_without_capacity_hold_nothing() {
    let (mut bp, _other) = buffered(0, OverflowStrategy::DropNewest);
    assert_eq!(fill(&mut bp, 2), vec![true; 2]);
    assert_eq!(bp.buffered_count(), 0);
    assert_eq!(bp.dropped(), 2);
    let (mut bp, _other) = buffered(0, OverflowStrategy::Refuse);
    assert_eq!(fill(&mut bp, 2), vec![false; 2]);
    assert_eq!(bp.buffered_count(), 0);
    assert_eq!(bp.stats().errors, 2);
}

#[test]
fn messages_come_out_in_order_under_every_strategy() {
    for strategy in [
        OverflowStrategy::DropOldest,
        OverflowStrategy::DropNewest,
        OverflowStrategy::Refuse,
    ] {
        let (mut bp, _other) = buffered(4, strategy);
        assert_eq!(fill(&mut bp, 4), vec![true; 4]);
        assert_eq!(drain(&mut bp), vec!["m0", "m1", "m2", "m3"]);
        assert_eq!(bp.buffered_count(), 0);
        assert_eq!(bp.dropped(), 0);
        assert_eq!(bp.stats().sent, 4);
        assert_eq!(bp.stats().received, 4);
    }
}

#[test]
fn poll_takes_what_receive_takes() {
    let (mut bp, _other) = buffered(4, OverflowStrategy::Refuse);
    fill(&mut bp, 2);
    assert_eq!(bp.poll_now(Duration::ZERO).unwrap().unwrap().content, "m0");
    assert_eq!(bp.receive_now().unwrap().unwrap().content, "m1");
    assert_eq!(bp.stats().received, 2);
}

#[test]
fn buffered_steps_at_given_times() {
    let (mut bp, _other) = buffered(1, OverflowStrategy::Refuse);
    assert!(bp.can_count_send());
    bp.send_at(message("s", "a"), 10).unwrap();
    assert!(bp.can_count_send());
    assert_eq!(bp.stats().last_activity, Some(10));
    assert_eq!(bp.send_at(message("s", "b"), 11), Err(PortError::Full));
    assert_eq!(bp.stats().last_activity, Some(10));
    assert!(matches!(
        bp.start_receive_at(12),
        BufferedStep::Done(Ok(Some(m))) if m.content == "a"
    ));
    assert_eq!(bp.stats().last_activity, Some(12));
    assert!(matches!(bp.start_receive_at(13), BufferedStep::Receive));
    assert!(matches!(
        bp.start_poll_at(Duration::from_secs(9), 14),
        BufferedStep::Poll(timeout) if timeout == Duration::from_secs(9)
    ));
    assert_eq!(bp.stats().last_activity, Some(12));
}
