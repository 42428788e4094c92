use lau_port_v2::broadcast::SUB_CAPACITY;
use lau_port_v2::{
    AsyncPort, BroadcastPort, ChannelPort, Delivery, MessageIds, PortError, PortMessage,
};
use std::time::Duration;
use tokio::runtime::Builder;
use tokio::sync::mpsc;

fn message(source: &str, content: &str) -> PortMessage {
    PortMessage::new(&mut MessageIds::new(), source, content)
}

fn next(rx: &mut mpsc::Receiver<PortMessage>) -> Option<PortMessage> {
    Builder::new_current_thread().build().unwrap().block_on(rx.recv())
}

#[test]
fn broadcast_single_subscriber() {
    let mut bp = BroadcastPort::new("events");
    let mut rx = bp.subscribe();
    bp.send(message("sys", "alert")).unwrap();
    let msg = next(&mut rx).unwrap();
    assert_eq!(msg.content, "alert");
}

#[test]
fn broadcast_multiple_subscribers() {
    let mut bp = BroadcastPort::new("events");
    let mut rx1 = bp.subscribe();
    let mut rx2 = bp.subscribe();
    let mut rx3 = bp.subscribe();
    bp.send(message("sys", "broadcast!")).unwrap();
    assert_eq!(next(&mut rx1).unwrap().content, "broadcast!");
    assert_eq!(next(&mut rx2).unwrap().content, "broadcast!");
    assert_eq!(next(&mut rx3).unwrap().content, "broadcast!");
    assert_eq!(bp.subscriber_count(), 3);
    assert_eq!(bp.stats().sent, 3);
    for rx in [&mut rx1, &mut rx2, &mut rx3] {
        assert!(rx.try_recv().is_err());
    }
}

#[test]
fn broadcast_copies_are_whole() {
    let mut bp = BroadcastPort::new("events");
    let mut rx1 = bp.subscribe();
    let mut rx2 = bp.subscribe();
    let msg = message("sys", "x").with_metadata("k", "v");
    bp.send(msg.clone()).unwrap();
    assert_eq!(next(&mut rx1).unwrap(), msg);
    assert_eq!(next(&mut rx2).unwrap(), msg);
}

#[test]
fn broadcast_receive_error() {
    let mut bp = BroadcastPort::new("ev");
    let err = bp.receive().unwrap_err();
    assert!(matches!(err, PortError::Io(_)));
    assert_eq!(err, PortError::Io("broadcast port is send-only".into()));
}

#[test]
fn broadcast_poll_error() {
    let mut bp = BroadcastPort::new("ev");
    let err = bp.poll(Duration::from_millis(10)).unwrap_err();
    assert!(matches!(err, PortError::Io(_)));
    assert_eq!(err, PortError::Io("broadcast port is send-only".into()));
}

#[test]
fn broadcast_close() {
    let mut bp = BroadcastPort::new("ev");
    assert!(bp.is_active());
    bp.close().unwrap();
    assert!(!bp.is_active());
    assert_eq!(bp.subscriber_count(), 0);
}

#[test]
fn broadcast_close_ends_subscriptions() {
    let mut bp = BroadcastPort::new("ev");
    let mut rx = bp.subscribe();
    bp.close().unwrap();
    assert!(next(&mut rx).is_none());
}

#[test]
fn broadcast_send_after_close() {
    let mut bp = BroadcastPort::new("ev");
    bp.close().unwrap();
    let err = bp.send(message("x", "y")).unwrap_err();
    assert_eq!(err, PortError::Closed);
}

#[test]
fn broadcast_stats() {
    let mut bp = BroadcastPort::new("ev");
    let _rx = bp.subscribe();
    bp.send(message("s", "m1")).unwrap();
    bp.send(message("s", "m2")).unwrap();
    assert_eq!(bp.stats().sent, 2);
    assert!(bp.stats().last_activity.is_some());
}

#[test]
fn broadcast_dead_subscriber_pruned() {
    let mut bp = BroadcastPort::new("ev");
    {
        let rx = bp.subscribe();
        drop(rx);
    }
    bp.send(message("s", "ping")).unwrap();
    assert_eq!(bp.subscriber_count(), 0);
    assert_eq!(bp.stats().sent, 0);
}

#[test]
fn broadcast_endpoint() {
    let bp = BroadcastPort::new("my-bus");
    assert_eq!(bp.endpoint(), "my-bus");
}

#[test]
fn broadcast_many_messages() {
    let mut bp = BroadcastPort::new("stress");
    let mut subs: Vec<mpsc::Receiver<PortMessage>> = (0..5).map(|_| bp.subscribe()).collect();
    for i in 0..20 {
        bp.send(message("src", &format!("msg-{i}"))).unwrap();
    }
    for sub in &mut subs {
        for i in 0..20 {
            let msg = next(sub).unwrap();
            assert_eq!(msg.content, format!("msg-{i}"));
        }
    }
    assert_eq!(bp.stats().sent, 100);
}

#[test]
fn broadcast_zero_subscribers() {
    let mut bp = BroadcastPort::new("empty");
    bp.send(message("s", "void")).unwrap();
}

#[test]
fn broadcast_full_subscriber_stays() {
    let mut bp = BroadcastPort::new("ev");
    let mut slow = bp.subscribe();
    let mut fast = bp.subscribe();
    for i in 0..SUB_CAPACITY {
        bp.send(message("s", &format!("{i}"))).unwrap();
        assert_eq!(next(&mut fast).unwrap().content, format!("{i}"));
    }
    assert_eq!(SUB_CAPACITY, 256);
    bp.send(message("s", "late")).unwrap();
    assert_eq!(next(&mut fast).unwrap().content, "late");
    assert_eq!(bp.subscriber_count(), 2);
    assert_eq!(bp.stats().sent, 2 * 256 + 1);
    assert_eq!(bp.stats().dropped, 1);
    bp.send(message("s", "later")).unwrap();
    assert_eq!(next(&mut fast).unwrap().content, "later");
    assert_eq!(bp.stats().dropped, 2);
    assert_eq!(bp.subscriber_count(), 2);
    assert_eq!(next(&mut slow).unwrap().content, "0");
    bp.send(message("s", "again")).unwrap();
    assert_eq!(bp.stats().sent, 2 * 256 + 4);
    assert_eq!(bp.stats().dropped, 2);
}

#[test]
fn broadcast_prunes_only_the_dead() {
    let mut bp = BroadcastPort::new("ev");
    let mut first = bp.subscribe();
    let dead = bp.subscribe();
    let mut last = bp.subscribe();
    drop(dead);
    bp.send(message("s", "ping")).unwrap();
    assert_eq!(bp.subscriber_count(), 2);
    assert_eq!(bp.stats().sent, 2);
    bp.send(message("s", "pong")).unwrap();
    assert_eq!(next(&mut first).unwrap().content, "ping");
    assert_eq!(next(&mut first).unwrap().content, "pong");
    assert_eq!(next(&mut last).unwrap().content, "ping");
    assert_eq!(next(&mut last).unwrap().content, "pong");
}

#[test]
fn broadcast_books_given_deliveries() {
    let mut bp = BroadcastPort::new("ev");
    let _a = bp.subscribe();
    let mut b = bp.subscribe();
    let _c = bp.subscribe();
    let _d = bp.subscribe();
    let deliveries = vec![Delivery::Gone, Delivery::Sent, Delivery::Full, Delivery::Gone];
    assert!(!bp.can_settle(&vec![Delivery::Sent]));
    assert!(bp.can_settle(&deliveries));
    bp.settle_at(&deliveries, 77);
    assert_eq!(bp.subscriber_count(), 2);
    assert_eq!(bp.stats().sent, 1);
    assert_eq!(bp.stats().dropped, 1);
    assert_eq!(bp.stats().last_activity, Some(77));
    bp.send(message("s", "x")).unwrap();
    assert_eq!(bp.stats().sent, 3);
    assert_eq!(next(&mut b).unwrap().content, "x");
}

#[test]
fn broadcast_offers_before_it_books() {
    let mut bp = BroadcastPort::new("ev");
    let mut a = bp.subscribe();
    let b = bp.subscribe();
    drop(b);
    let deliveries = bp.offer_all(&message("s", "x")).unwrap();
    assert_eq!(deliveries, vec![Delivery::Sent, Delivery::Gone]);
    assert_eq!(bp.subscriber_count(), 2);
    assert_eq!(bp.stats().sent, 0);
    bp.settle(&deliveries);
    assert_eq!(bp.subscriber_count(), 1);
    assert_eq!(bp.stats().sent, 1);
    assert!(bp.stats().last_activity.is_some());
    assert_eq!(next(&mut a).unwrap().content, "x");
    bp.close().unwrap();
    assert_eq!(bp.offer_all(&message("s", "x")), Err(PortError::Closed));
}

#[test]
fn late_subscriber_gets_what_follows_in_order() {
    let mut bp = BroadcastPort::new("ev");
    bp.send(message("s", "early")).unwrap();
    let mut rx = bp.subscribe();
    let leaving = bp.subscribe();
    for i in 0..4 {
        bp.send(message("s", &format!("m{i}"))).unwrap();
    }
    drop(leaving);
    bp.send(message("s", "m4")).unwrap();
    assert_eq!(bp.subscriber_count(), 1);
    for i in 0..5 {
        assert_eq!(next(&mut rx).unwrap().content, format!("m{i}"));
    }
    bp.close().unwrap();
    assert!(next(&mut rx).is_none());
}

#[test]
fn subscriber_takes_exactly_what_it_does_not_miss() {
    let mut bp = BroadcastPort::new("ev");
    let leaving = bp.subscribe();
    let mut rx = bp.subscribe();
    for i in 0..SUB_CAPACITY + 3 {
        bp.send(message("s", &format!("{i}"))).unwrap();
    }
    drop(leaving);
    for i in 0..SUB_CAPACITY {
        assert_eq!(next(&mut rx).unwrap().content, format!("{i}"));
    }
    assert!(rx.try_recv().is_err());
    bp.send(message("s", "again")).unwrap();
    assert_eq!(bp.subscriber_count(), 1);
    assert_eq!(next(&mut rx).unwrap().content, "again");
    assert!(rx.try_recv().is_err());
}

#[test]
fn full_pipeline_channel_broadcast() {
    let (mut sender, mut receiver) = ChannelPort::pair(32);
    let mut broadcaster = BroadcastPort::new("hub");
    let mut sub_rx = broadcaster.subscribe();

    let handed = sender.start_send(message("client", "hello")).unwrap();
    let delivered = sender.sender().try_send(handed).is_ok();
    sender.finish_send(delivered).unwrap();
    receiver.start_receive().unwrap();
    let received = next(receiver.receiver());
    let msg = receiver.finish_receive(received).unwrap().unwrap();
    broadcaster.send(msg).unwrap();
    let broadcast_msg = next(&mut sub_rx).unwrap();
    assert_eq!(broadcast_msg.content, "hello");
}
