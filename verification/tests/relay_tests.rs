use p2p_signaling::signaling_server::SignalingServer;

fn relay_with_a_b() -> SignalingServer {
    let mut srv = SignalingServer::new();
    assert!(srv.register("A".to_string(), 1));
    assert!(srv.register("B".to_string(), 2));
    srv
}

#[test]
fn register_rejects_taken_identifier() {
    let mut srv = SignalingServer::new();
    assert!(srv.register("A".to_string(), 1));
    assert!(!srv.register("A".to_string(), 9));
    assert_eq!(srv.sink_of("A"), Some(1));
}

#[test]
fn add_assigns_fresh_identifier() {
    let mut srv = SignalingServer::new();
    let id1 = srv.add(1).expect("fresh identifier");
    let id2 = srv.add(2).expect("fresh identifier");
    assert_eq!(id1.len(), 36);
    assert_eq!(id2.len(), 36);
    assert_ne!(id1, id2);
    assert_eq!(srv.sink_of(&id1), Some(1));
    assert_eq!(srv.sink_of(&id2), Some(2));
}

#[test]
fn get_my_id_replies_to_sender() {
    let srv = relay_with_a_b();
    let d = srv.handle_msg("{\"type\":\"GetMyID\"}", "A").expect("reply");
    assert_eq!(d.to, "A");
    assert_eq!(d.sink, 1);
    assert_eq!(d.payload, "{\"type\":\"ID\",\"id\":\"A\"}");
}

#[test]
fn get_my_id_twice_same_identifier() {
    let srv = relay_with_a_b();
    let d1 = srv.handle_msg("{\"type\":\"GetMyID\"}", "B").expect("reply");
    let d2 = srv.handle_msg("{\"type\":\"GetMyID\"}", "B").expect("reply");
    assert_eq!(d1.payload, d2.payload);
    assert_eq!(d1.to, d2.to);
    assert_eq!(d1.payload, "{\"type\":\"ID\",\"id\":\"B\"}");
}

#[test]
fn forward_offer_stamps_sender() {
    let srv = relay_with_a_b();
    let d = srv
        .handle_msg("{\"type\":\"Offer\",\"to\":\"B\",\"sdp\":\"O1\"}", "A")
        .expect("forwarded");
    assert_eq!(d.to, "B");
    assert_eq!(d.sink, 2);
    assert_eq!(d.payload, "{\"type\":\"Offer\",\"from\":\"A\",\"to\":\"B\",\"sdp\":\"O1\"}");
}

#[test]
fn forward_answer_stamps_sender() {
    let srv = relay_with_a_b();
    let d = srv
        .handle_msg("{\"type\":\"Answer\",\"to\":\"A\",\"sdp\":\"R1\"}", "B")
        .expect("forwarded");
    assert_eq!(d.to, "A");
    assert_eq!(d.sink, 1);
    assert_eq!(d.payload, "{\"type\":\"Answer\",\"from\":\"B\",\"to\":\"A\",\"sdp\":\"R1\"}");
}

#[test]
fn forward_to_unknown_destination_drops() {
    let srv = relay_with_a_b();
    let d = srv.handle_msg("{\"type\":\"Offer\",\"to\":\"Z\",\"sdp\":\"O1\"}", "A");
    assert!(d.is_none());
}

#[test]
fn malformed_message_drops() {
    let srv = relay_with_a_b();
    assert!(srv.handle_msg("", "A").is_none());
    assert!(srv.handle_msg("hello", "A").is_none());
    assert!(srv.handle_msg("{\"type\":\"Offer\",\"to\":\"B\"}", "A").is_none());
}

#[test]
fn spoofed_from_field_never_forwarded() {
    // A client-side envelope carries no "from"; one that smuggles a
    // "from" claim in is not a canonical client message and is dropped,
    // so the claim can never reach the destination.
    let srv = relay_with_a_b();
    let d = srv.handle_msg(
        "{\"type\":\"Offer\",\"from\":\"C\",\"to\":\"B\",\"sdp\":\"O1\"}",
        "A",
    );
    assert!(d.is_none());
}

#[test]
fn removed_identifier_unreachable() {
    let mut srv = relay_with_a_b();
    srv.remove("B");
    assert_eq!(srv.sink_of("B"), None);
    let d = srv.handle_msg("{\"type\":\"Offer\",\"to\":\"B\",\"sdp\":\"O1\"}", "A");
    assert!(d.is_none());
}

#[test]
fn identity_query_from_unmapped_sender_drops() {
    let srv = SignalingServer::new();
    assert!(srv.handle_msg("{\"type\":\"GetMyID\"}", "ghost").is_none());
}
