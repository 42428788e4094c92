use lau_port_v2::{
    AsyncPort, BufferedPort, BufferedStep, ChannelPort, CloseStep, MessageIds, MultiplexPort,
    OverflowStrategy, PollOutcome, PortError, PortMessage, ReceiveStep, SendStep,
};
use std::time::Duration;
use tokio::runtime::{Builder, Runtime};

type Received = Result<Option<PortMessage>, PortError>;

trait Drive: AsyncPort {
    fn send_now(&mut self, message: PortMessage) -> Result<(), PortError>;
    fn receive_now(&mut self) -> Received;
    fn poll_now(&mut self, timeout: Duration) -> Received;
    fn close_now(&mut self) -> Result<(), PortError>;
}

fn runtime() -> Runtime {
    Builder::new_current_thread().enable_time().build().unwrap()
}

impl Drive for ChannelPort {
    fn send_now(&mut self, message: PortMessage) -> Result<(), PortError> {
        let message = self.start_send(message)?;
        let delivered = runtime().block_on(self.sender().send(message)).is_ok();
        self.finish_send(delivered)
    }

    fn receive_now(&mut self) -> Received {
        self.start_receive()?;
        let received = runtime().block_on(self.receiver().recv());
        self.finish_receive(received)
    }

    fn poll_now(&mut self, timeout: Duration) -> Received {
        let timeout = self.start_poll(timeout)?;
        let runtime = runtime();
        let _guard = runtime.enter();
        let wait = tokio::time::timeout(timeout, self.receiver().recv());
        let outcome = match runtime.block_on(wait) {
            Ok(Some(message)) => PollOutcome::Message(message),
            Ok(None) => PollOutcome::Disconnected,
            Err(_) => PollOutcome::Elapsed,
        };
        self.finish_poll(outcome)
    }

    fn close_now(&mut self) -> Result<(), PortError> {
        self.close()
    }
}

impl<P: Drive> Drive for BufferedPort<P> {
    fn send_now(&mut self, message: PortMessage) -> Result<(), PortError> {
        self.send(message)
    }

    fn receive_now(&mut self) -> Received {
        match self.start_receive() {
            BufferedStep::Done(result) => result,
            _ => {
                let result = self.inner().receive_now();
                self.finish_receive(result)
            }
        }
    }

    fn poll_now(&mut self, timeout: Duration) -> Received {
        match self.start_poll(timeout) {
            BufferedStep::Done(result) => result,
            BufferedStep::Poll(timeout) => {
                let result = self.inner().poll_now(timeout);
                self.finish_poll(result)
            }
            BufferedStep::Receive => unreachable!(),
        }
    }

    fn close_now(&mut self) -> Result<(), PortError> {
        self.start_close();
        self.inner().close_now()
    }
}

impl<P: Drive> Drive for MultiplexPort<P> {
    fn send_now(&mut self, message: PortMessage) -> Result<(), PortError> {
        match self.start_send(message) {
            SendStep::Forward { index, message } => self.port(index).send_now(message),
            SendStep::Done(result) => result,
        }
    }

    fn receive_now(&mut self) -> Received {
        let mut step = self.receive_any();
        loop {
            step = match step {
                ReceiveStep::Poll { index, timeout } => {
                    let result = self.port(index).poll_now(timeout);
                    self.receive_any_next(index, timeout, result)
                }
                ReceiveStep::Receive { index } => return self.port(index).receive_now(),
                ReceiveStep::Done(result) => return result,
            }
        }
    }

    fn poll_now(&mut self, timeout: Duration) -> Received {
        let mut step = self.start_poll(timeout);
        loop {
            step = match step {
                ReceiveStep::Poll { index, timeout } => {
                    let result = self.port(index).poll_now(timeout);
                    self.poll_next(index, timeout, result)
                }
                ReceiveStep::Receive { .. } => unreachable!(),
                ReceiveStep::Done(result) => return result,
            }
        }
    }

    fn close_now(&mut self) -> Result<(), PortError> {
        let mut step = self.start_close();
        loop {
            step = match step {
                CloseStep::Close { index } => {
                    let result = self.port(index).close_now();
                    self.close_next(index, result)
                }
                CloseStep::Done(result) => return result,
            }
        }
    }
}

fn message(source: &str, content: &str) -> PortMessage {
    PortMessage::new(&mut MessageIds::new(), source, content)
}

#[test]
fn multiplex_receive_from_first() {
    let (ma, mut mb) = ChannelPort::pair(8);
    let (mut _ca, cb) = ChannelPort::pair(8);
    let mut mx = MultiplexPort::new("mx");
    mx.add_port(ma);
    mx.add_port(cb);
    mb.send_now(message("b", "from-b")).unwrap();
    let msg = mx.receive_now().unwrap().unwrap();
    assert_eq!(msg.content, "from-b");
}

#[test]
fn multiplex_receive_any() {
    let (a1, _b1) = ChannelPort::pair(8);
    let (a2, mut b2) = ChannelPort::pair(8);
    let mut mx = MultiplexPort::new("mx");
    mx.add_port(a1);
    mx.add_port(a2);
    b2.send_now(message("b2", "second")).unwrap();
    let msg = mx.receive_now().unwrap().unwrap();
    assert_eq!(msg.content, "second");
}

#[test]
fn multiplex_poll() {
    let (a, mut b) = ChannelPort::pair(8);
    let mut mx = MultiplexPort::new("mx");
    mx.add_port(a);
    b.send_now(message("b", "polled")).unwrap();
    let msg = mx.poll_now(Duration::from_secs(1)).unwrap().unwrap();
    assert_eq!(msg.content, "polled");
}

#[test]
fn multiplex_close_all() {
    let (a, _b) = ChannelPort::pair(4);
    let (c, _d) = ChannelPort::pair(4);
    let mut mx = MultiplexPort::new("mx");
    mx.add_port(a);
    mx.add_port(c);
    mx.close_now().unwrap();
    assert!(!mx.is_active());
}

#[test]
fn multiplex_empty_receive() {
    let mut mx: MultiplexPort<ChannelPort> = MultiplexPort::new("mx");
    let err = mx.receive_now().unwrap_err();
    assert_eq!(err, PortError::Closed);
}

#[test]
fn multiplex_without_ports() {
    let mut mx: MultiplexPort<ChannelPort> = MultiplexPort::new("mx");
    assert!(!mx.is_active());
    assert_eq!(mx.poll_now(Duration::from_secs(1)), Err(PortError::Closed));
    assert_eq!(mx.send_now(message("a", "b")), Err(PortError::Closed));
    assert_eq!(mx.close_now(), Ok(()));
}

#[test]
fn multiplex_endpoint() {
    let mx: MultiplexPort<ChannelPort> = MultiplexPort::new("test-mx");
    assert_eq!(mx.endpoint(), "test-mx");
}

#[test]
fn multiplex_port_count() {
    let (a, _b) = ChannelPort::pair(4);
    let mut mx = MultiplexPort::new("mx");
    assert_eq!(mx.port_count(), 0);
    mx.add_port(a);
    assert_eq!(mx.port_count(), 1);
}

#[test]
fn multiplex_send_to_first_active() {
    let (a, mut b) = ChannelPort::pair(8);
    let (c, _d) = ChannelPort::pair(8);
    let mut mx = MultiplexPort::new("mx");
    mx.add_port(a);
    mx.add_port(c);
    mx.send_now(message("mx", "out")).unwrap();
    let msg = b.receive_now().unwrap().unwrap();
    assert_eq!(msg.content, "out");
}

#[test]
fn multiplex_send_skips_closed_ports() {
    let (mut a, mut b) = ChannelPort::pair(8);
    let (c, mut d) = ChannelPort::pair(8);
    a.close().unwrap();
    let mut mx = MultiplexPort::new("mx");
    mx.add_port(a);
    mx.add_port(c);
    mx.send_now(message("mx", "out")).unwrap();
    assert_eq!(d.receive_now().unwrap().unwrap().content, "out");
    assert!(b.poll_now(Duration::from_millis(5)).unwrap().is_none());
    mx.close_now().unwrap();
    assert_eq!(mx.send_now(message("mx", "out")), Err(PortError::Closed));
}

#[test]
fn multiplex_poll_timeout_empty() {
    let (a, _b) = ChannelPort::pair(4);
    let mut mx = MultiplexPort::new("mx");
    mx.add_port(a);
    let result = mx.poll_now(Duration::from_millis(30)).unwrap();
    assert!(result.is_none());
}

#[test]
fn multiplex_is_active_with_one_active() {
    let (a, _b) = ChannelPort::pair(4);
    let (mut c, _d) = ChannelPort::pair(4);
    let mut mx = MultiplexPort::new("mx");
    mx.add_port(a);
    c.close().unwrap();
    mx.add_port(c);
    assert!(mx.is_active());
}

#[test]
fn multiplex_with_buffered_ports() {
    let (a1, mut b1) = ChannelPort::pair(8);
    let (a2, mut b2) = ChannelPort::pair(8);
    let mut mx = MultiplexPort::new("mx");
    mx.add_port(BufferedPort::new(a1, 16, OverflowStrategy::DropOldest));
    mx.add_port(BufferedPort::new(a2, 16, OverflowStrategy::DropOldest));
    b1.send_now(message("b1", "from-1")).unwrap();
    b2.send_now(message("b2", "from-2")).unwrap();
    let msg = mx.receive_now().unwrap().unwrap();
    assert!((msg.content == "from-1") || (msg.content == "from-2"));
}

#[test]
fn multiplex_polls_each_port_for_its_share() {
    let mut mx = MultiplexPort::new("mx");
    for _ in 0..4 {
        mx.add_port(ChannelPort::pair(1).0);
    }
    assert!(matches!(
        mx.receive_any(),
        ReceiveStep::Poll { index: 0, timeout } if timeout == Duration::from_millis(50)
    ));
    assert!(matches!(
        mx.start_poll(Duration::from_millis(10)),
        ReceiveStep::Poll { index: 0, timeout } if timeout == Duration::from_micros(2_500)
    ));
    let share = Duration::from_micros(2_500);
    assert!(matches!(
        mx.poll_next(0, share, Ok(None)),
        ReceiveStep::Poll { index: 1, timeout } if timeout == share
    ));
    assert!(matches!(
        mx.poll_next(1, share, Err(PortError::Closed)),
        ReceiveStep::Poll { index: 2, .. }
    ));
    assert!(matches!(
        mx.poll_next(3, share, Err(PortError::Closed)),
        ReceiveStep::Done(Ok(None))
    ));
    assert!(matches!(
        mx.poll_next(0, share, Ok(Some(message("a", "b")))),
        ReceiveStep::Done(Ok(Some(m))) if m.content == "b"
    ));
}

#[test]
fn multiplex_falls_back_to_the_first_active_port() {
    let (mut a, _b) = ChannelPort::pair(4);
    let (c, _d) = ChannelPort::pair(4);
    a.close().unwrap();
    let mut mx = MultiplexPort::new("mx");
    mx.add_port(a);
    mx.add_port(c);
    let slice = Duration::from_millis(50);
    assert!(matches!(
        mx.receive_any_next(0, slice, Err(PortError::Closed)),
        ReceiveStep::Poll { index: 1, timeout } if timeout == slice
    ));
    assert!(matches!(
        mx.receive_any_next(1, slice, Ok(None)),
        ReceiveStep::Receive { index: 1 }
    ));
    mx.port(1).close().unwrap();
    assert!(matches!(
        mx.receive_any_next(1, slice, Ok(None)),
        ReceiveStep::Done(Ok(None))
    ));
    assert!(matches!(
        mx.receive_any_next(0, slice, Ok(Some(message("a", "m")))),
        ReceiveStep::Done(Ok(Some(m))) if m.content == "m"
    ));
}

#[test]
fn multiplex_prefers_the_first_message() {
    let (a1, mut b1) = ChannelPort::pair(8);
    let (a2, mut b2) = ChannelPort::pair(8);
    let mut mx = MultiplexPort::new("mx");
    mx.add_port(a1);
    mx.add_port(a2);
    b2.send_now(message("b2", "second")).unwrap();
    b1.send_now(message("b1", "first")).unwrap();
    assert_eq!(mx.poll_now(Duration::from_millis(20)).unwrap().unwrap().content, "first");
    assert_eq!(mx.poll_now(Duration::from_millis(20)).unwrap().unwrap().content, "second");
}

#[test]
fn multiplex_closes_in_order() {
    let mut mx = MultiplexPort::new("mx");
    mx.add_port(ChannelPort::pair(1).0);
    mx.add_port(ChannelPort::pair(1).0);
    assert!(matches!(mx.start_close(), CloseStep::Close { index: 0 }));
    assert!(matches!(
        mx.close_next(0, Err(PortError::Io("stuck".into()))),
        CloseStep::Close { index: 1 }
    ));
    assert!(matches!(
        mx.close_next(1, Err(PortError::Timeout)),
        CloseStep::Done(Ok(()))
    ));
}

#[test]
fn multiplex_of_lone_ports_has_nothing() {
    let (a, b) = ChannelPort::pair(1);
    drop(b);
    let mut mx = MultiplexPort::new("mx");
    mx.add_port(a);
    assert_eq!(mx.receive_now(), Ok(None));
    assert!(!mx.is_active());
}

#[test]
fn multiplex_shares_fit_the_timeout() {
    let timeout = Duration::new(1, 1);
    let mut mx = MultiplexPort::new("mx");
    for count in 1..8u32 {
        mx.add_port(ChannelPort::pair(1).0);
        match mx.start_poll(timeout) {
            ReceiveStep::Poll { timeout: share, .. } => {
                assert!(share * count <= timeout);
                assert!((share + Duration::from_nanos(1)) * count > timeout);
            }
            _ => panic!("a port has to be polled first"),
        }
    }
}
