use p2p_signaling::ice_server::IceServer;
use p2p_signaling::signaling::Signaling;

#[test]
fn new_state_has_no_identifier() {
    let s = Signaling::new();
    assert!(s.id().is_none());
}

#[test]
fn identity_reply_caches_first_identifier() {
    let mut s = Signaling::new();
    s.handle_incoming("{\"type\":\"ID\",\"id\":\"me-1\"}");
    assert_eq!(s.id().map(|x| x.as_str()), Some("me-1"));
    s.handle_incoming("{\"type\":\"ID\",\"id\":\"me-2\"}");
    assert_eq!(s.id().map(|x| x.as_str()), Some("me-1"));
}

#[test]
fn malformed_incoming_changes_nothing() {
    let mut s = Signaling::new();
    s.handle_incoming("garbage");
    s.handle_incoming("{\"type\":\"ID\",\"id\":\"x\"");
    assert!(s.id().is_none());
    assert!(s.receive_offer().is_none());
}

#[test]
fn offers_come_out_in_arrival_order() {
    let mut s = Signaling::new();
    s.handle_incoming("{\"type\":\"Offer\",\"from\":\"A\",\"to\":\"B\",\"sdp\":\"O1\"}");
    s.handle_incoming("{\"type\":\"Offer\",\"from\":\"C\",\"to\":\"B\",\"sdp\":\"O2\"}");
    let first = s.receive_offer().expect("an offer");
    assert_eq!(first.from, "A");
    assert_eq!(first.sdp, "O1");
    let second = s.receive_offer().expect("an offer");
    assert_eq!(second.from, "C");
    assert_eq!(second.sdp, "O2");
    assert!(s.receive_offer().is_none());
}

#[test]
fn answers_keyed_by_sender_and_taken_once() {
    let mut s = Signaling::new();
    s.handle_incoming("{\"type\":\"Answer\",\"from\":\"B\",\"to\":\"A\",\"sdp\":\"R1\"}");
    s.handle_incoming("{\"type\":\"Answer\",\"from\":\"C\",\"to\":\"A\",\"sdp\":\"R2\"}");
    assert!(s.receive_answer_from("D").is_none());
    assert_eq!(s.receive_answer_from("B").as_deref(), Some("R1"));
    assert!(s.receive_answer_from("B").is_none());
    assert_eq!(s.receive_answer_from("C").as_deref(), Some("R2"));
}

#[test]
fn later_answer_from_same_peer_replaces_earlier() {
    let mut s = Signaling::new();
    s.handle_incoming("{\"type\":\"Answer\",\"from\":\"B\",\"to\":\"A\",\"sdp\":\"R1\"}");
    s.handle_incoming("{\"type\":\"Answer\",\"from\":\"B\",\"to\":\"A\",\"sdp\":\"R9\"}");
    assert_eq!(s.receive_answer_from("B").as_deref(), Some("R9"));
    assert!(s.receive_answer_from("B").is_none());
}

#[test]
fn outgoing_messages_have_canonical_form() {
    let s = Signaling::new();
    assert_eq!(Signaling::get_my_id_message(), "{\"type\":\"GetMyID\"}");
    assert_eq!(
        s.send_offer("B", "O1"),
        "{\"type\":\"Offer\",\"to\":\"B\",\"sdp\":\"O1\"}"
    );
    assert_eq!(
        s.send_answer("A", "R1"),
        "{\"type\":\"Answer\",\"to\":\"A\",\"sdp\":\"R1\"}"
    );
}

#[test]
fn ice_server_from_url() {
    let s = IceServer::from("stun:stun.l.google.com:19302");
    assert_eq!(s.urls, "stun:stun.l.google.com:19302");
    assert!(s.credential.is_none());
    assert!(s.credential_type.is_none());
    assert!(s.username.is_none());
}
