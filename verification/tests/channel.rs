use lau_port_v2::{AsyncPort, ChannelPort, MessageIds, PollOutcome, PortError, PortMessage};
use std::time::{Duration, Instant};
use tokio::runtime::{Builder, Runtime};

fn runtime() -> Runtime {
    Builder::new_current_thread().enable_time().build().unwrap()
}

fn send(port: &mut ChannelPort, message: PortMessage) -> Result<(), PortError> {
    let message = port.start_send(message)?;
    let delivered = runtime().block_on(port.sender().send(message)).is_ok();
    port.finish_send(delivered)
}

fn receive(port: &mut ChannelPort) -> Result<Option<PortMessage>, PortError> {
    port.start_receive()?;
    let received = runtime().block_on(port.receiver().recv());
    port.finish_receive(received)
}

fn poll(port: &mut ChannelPort, timeout: Duration) -> Result<Option<PortMessage>, PortError> {
    let timeout = port.start_poll(timeout)?;
    let runtime = runtime();
    let _guard = runtime.enter();
    let outcome = match runtime.block_on(tokio::time::timeout(timeout, port.receiver().recv())) {
        Ok(Some(message)) => PollOutcome::Message(message),
        Ok(None) => PollOutcome::Disconnected,
        Err(_) => PollOutcome::Elapsed,
    };
    port.finish_poll(outcome)
}

fn message(source: &str, content: &str) -> PortMessage {
    PortMessage::new(&mut MessageIds::new(), source, content)
}

#[test]
fn channel_port_pair_send_receive() {
    let (mut a, mut b) = ChannelPort::pair(16);
    let msg = message("a", "hello b");
    send(&mut a, msg.clone()).unwrap();
    let received = receive(&mut b).unwrap().unwrap();
    assert_eq!(received.content, "hello b");
    assert_eq!(received.source, "a");
    assert_eq!(received, msg);
}

#[test]
fn channel_port_bidirectional() {
    let (mut a, mut b) = ChannelPort::pair(8);
    send(&mut a, message("a", "to b")).unwrap();
    send(&mut b, message("b", "to a")).unwrap();
    assert_eq!(receive(&mut b).unwrap().unwrap().content, "to b");
    assert_eq!(receive(&mut a).unwrap().unwrap().content, "to a");
}

#[test]
fn channel_port_is_active() {
    let (a, _b) = ChannelPort::pair(4);
    assert!(a.is_active());
}

#[test]
fn channel_port_close() {
    let (mut a, mut _b) = ChannelPort::pair(4);
    assert!(a.is_active());
    a.close().unwrap();
    assert!(!a.is_active());
    let err = send(&mut a, message("x", "y")).unwrap_err();
    assert_eq!(err, PortError::Closed);
}

#[test]
fn channel_port_receive_none_when_closed() {
    let (mut a, b) = ChannelPort::pair(4);
    drop(b);
    let result = receive(&mut a).unwrap();
    assert!(result.is_none());
    assert!(!a.is_active());
}

#[test]
fn channel_port_poll_timeout() {
    let (mut a, _b) = ChannelPort::pair(4);
    let start = Instant::now();
    let result = poll(&mut a, Duration::from_millis(50)).unwrap();
    assert!(result.is_none());
    assert!(start.elapsed() >= Duration::from_millis(40));
    assert!(a.is_active());
}

#[test]
fn channel_port_poll_gets_message() {
    let (mut a, mut b) = ChannelPort::pair(4);
    send(&mut a, message("a", "hi")).unwrap();
    let result = poll(&mut b, Duration::from_secs(1)).unwrap().unwrap();
    assert_eq!(result.content, "hi");
}

#[test]
fn channel_port_poll_of_a_lone_port() {
    let (mut a, b) = ChannelPort::pair(4);
    drop(b);
    assert!(poll(&mut a, Duration::from_secs(1)).unwrap().is_none());
    assert!(!a.is_active());
}

#[test]
fn channel_port_endpoint() {
    let (a, b) = ChannelPort::pair(4);
    assert_eq!(a.endpoint(), "channel-a");
    assert_eq!(b.endpoint(), "channel-b");
}

#[test]
fn channel_port_named() {
    let (a, b) = ChannelPort::pair_named(4, "client", "server");
    assert_eq!(a.endpoint(), "client");
    assert_eq!(b.endpoint(), "server");
}

#[test]
fn channel_port_stats() {
    let (mut a, mut b) = ChannelPort::pair(16);
    send(&mut a, message("a", "1")).unwrap();
    send(&mut a, message("a", "2")).unwrap();
    assert_eq!(a.stats().sent, 2);
    receive(&mut b).unwrap().unwrap();
    receive(&mut b).unwrap().unwrap();
    assert_eq!(b.stats().received, 2);
    assert!(a.stats().last_activity.is_some());
}

#[test]
fn channel_port_multiple_messages() {
    let (mut a, mut b) = ChannelPort::pair(32);
    for i in 0..10 {
        send(&mut a, message("a", &format!("msg-{i}"))).unwrap();
    }
    for i in 0..10 {
        let msg = receive(&mut b).unwrap().unwrap();
        assert_eq!(msg.content, format!("msg-{i}"));
    }
}

#[test]
fn channel_port_poll_when_closed() {
    let (mut a, _b) = ChannelPort::pair(4);
    a.close().unwrap();
    let err = poll(&mut a, Duration::from_millis(10)).unwrap_err();
    assert_eq!(err, PortError::Closed);
}

#[test]
fn channel_port_receive_after_close() {
    let (mut a, _b) = ChannelPort::pair(4);
    a.close().unwrap();
    let err = receive(&mut a).unwrap_err();
    assert_eq!(err, PortError::Closed);
}

#[test]
fn stress_channel_port() {
    let (mut a, mut b) = ChannelPort::pair(256);
    let count = 100u64;
    for i in 0..count {
        send(&mut a, message("a", &format!("stress-{i}"))).unwrap();
    }
    for i in 0..count {
        let msg = receive(&mut b).unwrap().unwrap();
        assert_eq!(msg.content, format!("stress-{i}"));
    }
    assert_eq!(a.stats().sent, count);
    assert_eq!(b.stats().received, count);
}

#[test]
fn channel_port_disconnected_on_drop() {
    let (mut a, b) = ChannelPort::pair(4);
    drop(b);
    let mut got_error = false;
    for _ in 0..100 {
        if send(&mut a, message("a", "x")).is_err() {
            got_error = true;
            break;
        }
    }
    assert!(got_error || !a.is_active());
}

#[test]
fn channel_port_counts_a_failed_send() {
    let (mut a, b) = ChannelPort::pair(4);
    drop(b);
    assert_eq!(send(&mut a, message("a", "x")), Err(PortError::Disconnected));
    assert_eq!(a.stats().errors, 1);
    assert_eq!(a.stats().sent, 0);
    assert!(!a.is_active());
    assert_eq!(send(&mut a, message("a", "x")), Err(PortError::Closed));
    assert_eq!(a.stats().errors, 1);
}

#[test]
fn channel_port_capacity_one() {
    let (mut a, mut b) = ChannelPort::pair(1);
    send(&mut a, message("a", "only")).unwrap();
    let msg = receive(&mut b).unwrap().unwrap();
    assert_eq!(msg.content, "only");
}

#[test]
fn channel_port_capacity_is_per_direction() {
    let (a, b) = ChannelPort::pair(3);
    assert_eq!(a.sender().max_capacity(), 3);
    assert_eq!(b.sender().max_capacity(), 3);
    assert!(!a.sender().same_channel(b.sender()));
}

#[test]
fn channel_port_steps_at_given_times() {
    let (mut a, _b) = ChannelPort::pair(4);
    assert_eq!(a.finish_send_at(true, 11), Ok(()));
    assert_eq!(a.stats().last_activity, Some(11));
    let m = message("b", "x");
    assert_eq!(a.finish_receive_at(Some(m.clone()), 12), Ok(Some(m.clone())));
    assert_eq!(a.stats().last_activity, Some(12));
    assert_eq!(a.finish_poll_at(PollOutcome::Elapsed, 13), Ok(None));
    assert_eq!(a.stats().last_activity, Some(12));
    assert_eq!(a.finish_poll_at(PollOutcome::Message(m.clone()), 14), Ok(Some(m)));
    assert_eq!(a.stats().received, 2);
    assert_eq!(a.stats().last_activity, Some(14));
    assert_eq!(a.finish_poll_at(PollOutcome::Disconnected, 15), Ok(None));
    assert!(!a.is_active());
    assert_eq!(a.stats().last_activity, Some(14));
}

#[test]
fn closed_port_stays_closed() {
    let (mut a, _b) = ChannelPort::pair(4);
    a.close().unwrap();
    a.finish_send_at(true, 1).unwrap();
    a.finish_poll_at(PollOutcome::Elapsed, 2).unwrap();
    assert!(!a.is_active());
    assert_eq!(a.start_poll(Duration::from_secs(1)), Err(PortError::Closed));
}
