use lau_port_v2::clock::{divide_timeout, millis_at, nanos_at, now_millis, now_nanos};
use lau_port_v2::{
    MessageIds, MessagePriority, Metadata, OverflowStrategy, PortError, PortMessage, PortStats,
};
use std::time::{Duration, UNIX_EPOCH};

#[test]
fn port_error_display() {
    assert_eq!(PortError::Closed.to_string(), "port is closed");
    assert_eq!(PortError::Timeout.to_string(), "operation timed out");
    assert!(PortError::Io("disk".into()).to_string().contains("disk"));
    assert_eq!(PortError::Full.to_string(), "port is full");
    assert_eq!(PortError::Disconnected.to_string(), "remote end disconnected");
}

#[test]
fn io_error_text_carries_its_detail() {
    assert_eq!(PortError::Io("disk".into()).to_string(), "I/O error: disk");
    assert_eq!(PortError::Io(String::new()).to_string(), "I/O error: ");
}

#[test]
fn port_error_equality() {
    assert_eq!(PortError::Closed, PortError::Closed);
    assert_ne!(PortError::Closed, PortError::Timeout);
}

#[test]
fn port_error_is_std_error() {
    let err: Box<dyn std::error::Error> = PortError::Closed.to_string().into();
    assert!(!err.to_string().is_empty());
    assert_eq!(err.to_string(), "port is closed");
}

#[test]
fn priority_ordering() {
    assert!(MessagePriority::Critical > MessagePriority::High);
    assert!(MessagePriority::High > MessagePriority::Normal);
    assert!(MessagePriority::Normal > MessagePriority::Low);
    assert_eq!(MessagePriority::Normal, MessagePriority::Normal);
}

#[test]
fn priority_ord_impl() {
    let mut v = vec![
        MessagePriority::Low,
        MessagePriority::Critical,
        MessagePriority::Normal,
    ];
    v.sort();
    assert_eq!(
        v,
        vec![
            MessagePriority::Low,
            MessagePriority::Normal,
            MessagePriority::Critical,
        ]
    );
}

#[test]
fn priority_comparisons_agree() {
    let all = [
        MessagePriority::Low,
        MessagePriority::Normal,
        MessagePriority::High,
        MessagePriority::Critical,
    ];
    for (i, a) in all.iter().enumerate() {
        assert_eq!(a.rank() as usize, i);
        for b in all.iter() {
            assert_eq!(a.partial_cmp(b), Some(a.cmp(b)));
            assert_eq!(a.cmp(b), a.rank().cmp(&b.rank()));
        }
    }
}

#[test]
fn priority_copy_clone() {
    let p = MessagePriority::High;
    let q = p;
    assert_eq!(p, q);
}

#[test]
fn port_message_new() {
    let mut ids = MessageIds::new();
    let msg = PortMessage::new(&mut ids, "src", "hello");
    assert_eq!(msg.source, "src");
    assert_eq!(msg.content, "hello");
    assert_eq!(msg.priority, MessagePriority::Normal);
    assert!(msg.metadata.is_empty());
    assert!(!msg.id.is_empty());
    assert!(msg.timestamp > 0);
}

#[test]
fn port_message_new_takes_owned_text() {
    let mut ids = MessageIds::new();
    let msg = PortMessage::new(&mut ids, String::from("src"), format!("n{}", 1));
    assert_eq!(msg.source, "src");
    assert_eq!(msg.content, "n1");
}

#[test]
fn port_message_assemble() {
    let msg = PortMessage::assemble("i".into(), "s".into(), "c".into(), 42);
    assert_eq!(msg.id, "i");
    assert_eq!(msg.source, "s");
    assert_eq!(msg.content, "c");
    assert_eq!(msg.timestamp, 42);
    assert!(msg.metadata.is_empty());
    assert_eq!(msg.priority, MessagePriority::Normal);
}

#[test]
fn port_message_builder() {
    let mut ids = MessageIds::new();
    let msg = PortMessage::new(&mut ids, "a", "b")
        .with_priority(MessagePriority::Critical)
        .with_metadata("key", "val");
    assert_eq!(msg.priority, MessagePriority::Critical);
    assert_eq!(msg.metadata.get("key").unwrap(), "val");
    assert_eq!(msg.source, "a");
    assert_eq!(msg.content, "b");
}

#[test]
fn port_message_unique_ids() {
    let mut ids = MessageIds::new();
    let a = PortMessage::new(&mut ids, "x", "y");
    let b = PortMessage::new(&mut ids, "x", "y");
    assert_ne!(a.id, b.id);
}

#[test]
fn ids_are_hexadecimal() {
    let mut ids = MessageIds::new();
    assert_eq!(ids.uuid_lite_at(0), "0-0");
    assert_eq!(ids.uuid_lite_at(0x1f), "1f-1");
    assert_eq!(ids.uuid_lite_at(0xabc_def0_1234_5678_9), "abcdef0123456789-2");
    assert_eq!(
        ids.uuid_lite_at(u128::MAX),
        "ffffffffffffffffffffffffffffffff-3"
    );
    for _ in 4..16 {
        ids.uuid_lite_at(0);
    }
    assert_eq!(ids.uuid_lite_at(1_000_000_007), format!("{:x}-{:x}", 1_000_000_007, 16));
}

#[test]
fn ids_made_at_one_time_differ() {
    let mut ids = MessageIds::new();
    let mut seen: Vec<String> = Vec::new();
    for _ in 0..300 {
        let id = ids.uuid_lite_at(7);
        assert!(!seen.contains(&id));
        seen.push(id);
    }
    assert!(ids.uuid_lite().ends_with("-12c"));
}

#[test]
fn port_message_equality() {
    let mut ids = MessageIds::new();
    let mut a = PortMessage::new(&mut ids, "s", "c");
    let mut b = a.clone();
    assert_eq!(a, b);
    a.metadata.insert("k".into(), "v".into());
    assert_ne!(a, b);
    b.metadata.insert("k".into(), "v".into());
    assert_eq!(a, b);
}

#[test]
fn every_field_counts_for_equality() {
    let base = PortMessage::assemble("i".into(), "s".into(), "c".into(), 1);
    assert_eq!(base, base.clone());
    assert_ne!(base, PortMessage::assemble("j".into(), "s".into(), "c".into(), 1));
    assert_ne!(base, PortMessage::assemble("i".into(), "t".into(), "c".into(), 1));
    assert_ne!(base, PortMessage::assemble("i".into(), "s".into(), "d".into(), 1));
    assert_ne!(base, PortMessage::assemble("i".into(), "s".into(), "c".into(), 2));
    assert_ne!(base, base.clone().with_priority(MessagePriority::Low));
    assert_ne!(base, base.clone().with_metadata("k", "v"));
}

#[test]
fn metadata_is_a_map() {
    let mut m = Metadata::new();
    assert!(m.is_empty());
    assert_eq!(m.get("a"), None);
    assert_eq!(m.insert("a".into(), "1".into()), None);
    assert_eq!(m.insert("b".into(), "2".into()), None);
    assert_eq!(m.insert("a".into(), "3".into()), Some("1".to_string()));
    assert!(!m.is_empty());
    assert_eq!(m.get("a").unwrap(), "3");
    assert_eq!(m.get("b").unwrap(), "2");
    let mut keys = m.keys();
    keys.sort();
    assert_eq!(keys, vec!["a".to_string(), "b".to_string()]);
}

#[test]
fn metadata_entries_can_be_removed() {
    let mut m = Metadata::new();
    assert_eq!(m.len(), 0);
    m.insert("a".into(), "1".into());
    m.insert("b".into(), "2".into());
    m.insert("c".into(), "3".into());
    m.insert("b".into(), "4".into());
    assert_eq!(m.len(), 3);
    assert!(m.contains_key("b"));
    assert_eq!(m.remove("x"), None);
    assert_eq!(m.len(), 3);
    assert_eq!(m.remove("b"), Some("4".to_string()));
    assert!(!m.contains_key("b"));
    assert_eq!(m.remove("b"), None);
    let mut keys = m.keys();
    keys.sort();
    assert_eq!(keys, vec!["a".to_string(), "c".to_string()]);
    assert_eq!(m.get("c").unwrap(), "3");
    assert_eq!(m.len(), 2);
}

#[test]
fn metadata_equality_ignores_order() {
    let mut m = Metadata::new();
    m.insert("a".into(), "1".into());
    m.insert("b".into(), "2".into());
    let mut n = Metadata::new();
    n.insert("b".into(), "2".into());
    assert_ne!(m, n);
    n.insert("a".into(), "1".into());
    assert_eq!(m, n);
    assert_eq!(m, m.clone());
    n.insert("a".into(), "2".into());
    assert_ne!(m, n);
}

#[test]
fn port_stats_default() {
    let s = PortStats::default();
    assert_eq!(s.sent, 0);
    assert_eq!(s.received, 0);
    assert_eq!(s.dropped, 0);
    assert_eq!(s.errors, 0);
    assert_eq!(s.last_activity, None);
}

#[test]
fn port_stats_new() {
    let s = PortStats::new();
    assert_eq!(s.sent, 0);
    assert_eq!(s, PortStats::default());
}

#[test]
fn overflow_strategy_copy() {
    let s = OverflowStrategy::DropOldest;
    let _t = s;
    assert_eq!(s, OverflowStrategy::DropOldest);
}

#[test]
fn clock_counts_from_the_epoch() {
    let t = UNIX_EPOCH + Duration::new(3, 4_567_890);
    assert_eq!(millis_at(&t), 3_004);
    assert_eq!(nanos_at(&t), 3_004_567_890);
    assert_eq!(millis_at(&UNIX_EPOCH), 0);
    assert_eq!(nanos_at(&UNIX_EPOCH), 0);
}

#[test]
fn times_before_the_epoch_count_as_zero() {
    let t = UNIX_EPOCH - Duration::from_secs(5);
    assert_eq!(millis_at(&t), 0);
    assert_eq!(nanos_at(&t), 0);
}

#[test]
fn clock_is_past_the_epoch() {
    let first = now_millis();
    assert!(first > 1_000_000_000_000);
    assert!(now_nanos() / 1_000_000 >= 1_000_000_000_000);
}

#[test]
fn timeouts_divide_to_the_nanosecond() {
    assert_eq!(divide_timeout(Duration::from_nanos(10), 3), Duration::from_nanos(3));
    assert_eq!(divide_timeout(Duration::from_secs(1), 4), Duration::from_millis(250));
    assert_eq!(divide_timeout(Duration::ZERO, 7), Duration::ZERO);
    assert_eq!(divide_timeout(Duration::MAX, 1), Duration::MAX);
    for parts in [1u32, 2, 3, 7, 1_000, u32::MAX] {
        for d in [Duration::new(5, 999_999_999), Duration::MAX, Duration::from_nanos(1)] {
            assert_eq!(divide_timeout(d, parts), d / parts);
        }
    }
}
