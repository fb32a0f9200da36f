use p2p_signaling::p2p_connection::P2PConnection;
use p2p_signaling::registry::ConnectionRegistry;
use p2p_signaling::registry::ConnectionUpdate;

#[test]
fn drain_returns_buffers_in_order() {
    let mut reg = ConnectionRegistry::new();
    reg.connected("B".to_string(), 10);
    reg.push_message("B".to_string(), "hello".to_string());
    reg.push_message("B".to_string(), "world".to_string());
    reg.disconnected("B".to_string());

    let (events, messages) = reg.drain();
    assert_eq!(events.len(), 2);
    assert!(matches!(events[0], ConnectionUpdate::Connected(ref p) if p == "B"));
    assert!(matches!(events[1], ConnectionUpdate::Disconnected(ref p) if p == "B"));
    assert_eq!(messages.len(), 2);
    assert_eq!(messages[0], ("B".to_string(), "hello".to_string()));
    assert_eq!(messages[1], ("B".to_string(), "world".to_string()));
}

#[test]
fn drain_twice_returns_empty_both_times() {
    let mut reg = ConnectionRegistry::new();
    reg.connected("B".to_string(), 10);
    reg.push_message("B".to_string(), "hello".to_string());
    let _ = reg.drain();
    let (events, messages) = reg.drain();
    assert!(events.is_empty());
    assert!(messages.is_empty());
    let (events, messages) = reg.drain();
    assert!(events.is_empty());
    assert!(messages.is_empty());
}

#[test]
fn send_before_peer_exists_is_noop() {
    let reg = ConnectionRegistry::new();
    assert!(reg.send("peerX", "data").is_none());
}

#[test]
fn second_negotiation_attempt_rejected() {
    let mut reg = ConnectionRegistry::new();
    assert!(reg.pending("B".to_string()));
    assert!(!reg.pending("B".to_string()));
    reg.connected("B".to_string(), 10);
    assert!(!reg.pending("B".to_string()));
    reg.disconnected("B".to_string());
    assert!(reg.pending("B".to_string()));
}

#[test]
fn send_on_pending_or_closed_is_noop() {
    let mut reg = ConnectionRegistry::new();
    assert!(reg.pending("B".to_string()));
    assert!(reg.send("B", "data").is_none());
    reg.connected("B".to_string(), 10);
    assert_eq!(reg.send("B", "data"), Some((10, "data".to_string())));
    reg.disconnected("B".to_string());
    assert!(reg.send("B", "data").is_none());
}

#[test]
fn send_after_remove_is_noop() {
    let mut reg = ConnectionRegistry::new();
    reg.connected("B".to_string(), 10);
    reg.remove("B");
    assert!(reg.send("B", "data").is_none());
}

#[test]
fn send_names_established_channel() {
    let mut reg = ConnectionRegistry::new();
    reg.connected("B".to_string(), 10);
    reg.connected("C".to_string(), 11);
    assert_eq!(reg.send("B", "to b"), Some((10, "to b".to_string())));
    assert_eq!(reg.send("C", "to c"), Some((11, "to c".to_string())));
}

#[test]
fn connection_buffers_and_drains_messages() {
    let mut c = P2PConnection::new("B".to_string(), 10);
    assert_eq!(c.id(), "B");
    assert_eq!(c.send("ping"), (10, "ping".to_string()));
    c.push_message("one".to_string());
    c.push_message("two".to_string());
    let got = c.receive();
    assert_eq!(got, vec!["one".to_string(), "two".to_string()]);
    assert!(c.receive().is_empty());
}
