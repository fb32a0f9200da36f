use p2p_signaling::negotiator::NegotiationAction;
use p2p_signaling::negotiator::NegotiationEvent;
use p2p_signaling::negotiator::NegotiationSession;
use p2p_signaling::negotiator::Role;
use p2p_signaling::negotiator::SessionState;
use p2p_signaling::registry::ConnectionRegistry;
use p2p_signaling::registry::ConnectionUpdate;
use p2p_signaling::signaling::Signaling;
use p2p_signaling::signaling_server::SignalingServer;

#[test]
fn initiator_walks_its_path() {
    let mut s = NegotiationSession::start_initiator("B".to_string());
    assert_eq!(s.state, SessionState::Idle);
    assert_eq!(s.role, Role::Initiator);

    let act = s.step(NegotiationEvent::LocalReady("O1".to_string()));
    assert!(matches!(act, NegotiationAction::SendOffer(ref to, ref sdp) if to == "B" && sdp == "O1"));
    assert_eq!(s.state, SessionState::OfferSent);

    let act = s.step(NegotiationEvent::AnswerArrived("B".to_string(), "R1".to_string()));
    assert!(matches!(act, NegotiationAction::ApplyRemoteAnswer(ref sdp) if sdp == "R1"));
    assert_eq!(s.state, SessionState::AnswerReceived);

    let act = s.step(NegotiationEvent::ChannelOpened(42));
    assert!(matches!(act, NegotiationAction::Connected(ref p) if p == "B"));
    assert_eq!(s.state, SessionState::ChannelOpen);
}

#[test]
fn responder_walks_its_path() {
    let mut s = NegotiationSession::start_responder("A".to_string(), "O1".to_string());
    assert_eq!(s.state, SessionState::OfferReceived);
    assert_eq!(s.role, Role::Responder);
    assert_eq!(s.remote_sdp.as_deref(), Some("O1"));

    let act = s.step(NegotiationEvent::LocalReady("R1".to_string()));
    assert!(matches!(act, NegotiationAction::SendAnswer(ref to, ref sdp) if to == "A" && sdp == "R1"));
    assert_eq!(s.state, SessionState::AnswerSent);

    let act = s.step(NegotiationEvent::ChannelOpened(7));
    assert!(matches!(act, NegotiationAction::Connected(ref p) if p == "A"));
    assert_eq!(s.state, SessionState::ChannelOpen);
}

#[test]
fn answer_from_wrong_peer_not_consumed() {
    let mut s = NegotiationSession::start_initiator("B".to_string());
    let _ = s.step(NegotiationEvent::LocalReady("O1".to_string()));
    let act = s.step(NegotiationEvent::AnswerArrived("C".to_string(), "RX".to_string()));
    assert!(matches!(act, NegotiationAction::Ignore));
    assert_eq!(s.state, SessionState::OfferSent);
    assert!(s.remote_sdp.is_none());
}

#[test]
fn stray_events_are_ignored_not_faults() {
    let mut s = NegotiationSession::start_initiator("B".to_string());
    let act = s.step(NegotiationEvent::ChannelOpened(1));
    assert!(matches!(act, NegotiationAction::Ignore));
    assert_eq!(s.state, SessionState::Idle);
    let act = s.step(NegotiationEvent::AnswerArrived("B".to_string(), "R".to_string()));
    assert!(matches!(act, NegotiationAction::Ignore));
    assert_eq!(s.state, SessionState::Idle);
}

#[test]
fn failure_reachable_from_nonterminal_only() {
    let mut s = NegotiationSession::start_initiator("B".to_string());
    let _ = s.step(NegotiationEvent::LocalReady("O1".to_string()));
    let act = s.step(NegotiationEvent::TransportFailed);
    assert!(matches!(act, NegotiationAction::Abandon));
    assert_eq!(s.state, SessionState::Failed);
    let act = s.step(NegotiationEvent::LocalReady("O2".to_string()));
    assert!(matches!(act, NegotiationAction::Ignore));
    assert_eq!(s.state, SessionState::Failed);

    let mut open = NegotiationSession::start_responder("A".to_string(), "O1".to_string());
    let _ = open.step(NegotiationEvent::LocalReady("R1".to_string()));
    let _ = open.step(NegotiationEvent::ChannelOpened(3));
    let act = open.step(NegotiationEvent::TransportFailed);
    assert!(matches!(act, NegotiationAction::Ignore));
    assert_eq!(open.state, SessionState::ChannelOpen);
}

/// The full loopback scenario: two endpoints negotiate through the
/// relay; the offer is forwarded with the sender stamped in, the
/// answer comes back the same way, and both sides reach the open state.
#[test]
fn relay_mediated_handshake() {
    let mut srv = SignalingServer::new();
    assert!(srv.register("A".to_string(), 1));
    assert!(srv.register("B".to_string(), 2));

    let mut sig_a = Signaling::new();
    let mut sig_b = Signaling::new();
    let mut reg_a = ConnectionRegistry::new();
    let mut reg_b = ConnectionRegistry::new();

    // A initiates toward B; its transport reports the local offer.
    let mut neg_a = NegotiationSession::start_initiator("B".to_string());
    let act = neg_a.step(NegotiationEvent::LocalReady("O1".to_string()));
    let offer_text = match act {
        NegotiationAction::SendOffer(to, sdp) => sig_a.send_offer(&to, &sdp),
        _ => panic!("initiator must send an offer"),
    };
    assert_eq!(neg_a.state, SessionState::OfferSent);

    // The relay forwards the offer to B, stamping in A.
    let d = srv.handle_msg(&offer_text, "A").expect("offer forwarded");
    assert_eq!(d.to, "B");
    assert_eq!(d.sink, 2);
    assert_eq!(d.payload, "{\"type\":\"Offer\",\"from\":\"A\",\"to\":\"B\",\"sdp\":\"O1\"}");

    // B digests it and answers.
    sig_b.handle_incoming(&d.payload);
    let offer = sig_b.receive_offer().expect("the forwarded offer");
    assert_eq!(offer.from, "A");
    assert_eq!(offer.sdp, "O1");
    let mut neg_b = NegotiationSession::start_responder(offer.from, offer.sdp);
    let act = neg_b.step(NegotiationEvent::LocalReady("R1".to_string()));
    let answer_text = match act {
        NegotiationAction::SendAnswer(to, sdp) => sig_b.send_answer(&to, &sdp),
        _ => panic!("responder must send an answer"),
    };

    // The relay forwards the answer back to A, stamping in B.
    let d = srv.handle_msg(&answer_text, "B").expect("answer forwarded");
    assert_eq!(d.to, "A");
    assert_eq!(d.sink, 1);
    assert_eq!(d.payload, "{\"type\":\"Answer\",\"from\":\"B\",\"to\":\"A\",\"sdp\":\"R1\"}");

    // A, having been OfferSent, consumes it and applies the descriptor.
    sig_a.handle_incoming(&d.payload);
    let remote_sdp = sig_a.receive_answer_from("B").expect("the forwarded answer");
    assert_eq!(remote_sdp, "R1");
    let act = neg_a.step(NegotiationEvent::AnswerArrived("B".to_string(), remote_sdp));
    assert!(matches!(act, NegotiationAction::ApplyRemoteAnswer(ref sdp) if sdp == "R1"));
    assert_eq!(neg_a.state, SessionState::AnswerReceived);

    // Both channels open; both sides converge and hand the session
    // to their registries.
    let act = neg_a.step(NegotiationEvent::ChannelOpened(10));
    match act {
        NegotiationAction::Connected(peer) => reg_a.connected(peer, 10),
        _ => panic!("initiator must connect"),
    }
    let act = neg_b.step(NegotiationEvent::ChannelOpened(20));
    match act {
        NegotiationAction::Connected(peer) => reg_b.connected(peer, 20),
        _ => panic!("responder must connect"),
    }
    assert_eq!(neg_a.state, SessionState::ChannelOpen);
    assert_eq!(neg_b.state, SessionState::ChannelOpen);

    // Each registry holds exactly one connected event, naming the
    // other side's identifier.
    let (events_a, _) = reg_a.drain();
    assert_eq!(events_a.len(), 1);
    assert!(matches!(events_a[0], ConnectionUpdate::Connected(ref p) if p == "B"));
    let (events_b, _) = reg_b.drain();
    assert_eq!(events_b.len(), 1);
    assert!(matches!(events_b[0], ConnectionUpdate::Connected(ref p) if p == "A"));
}

/// An offer to an identifier with no live mapping is dropped silently;
/// the sender's negotiation stays pending.
#[test]
fn unreachable_peer_leaves_negotiation_pending() {
    let mut srv = SignalingServer::new();
    assert!(srv.register("A".to_string(), 1));

    let mut neg_a = NegotiationSession::start_initiator("Z".to_string());
    let sig_a = Signaling::new();
    let act = neg_a.step(NegotiationEvent::LocalReady("O1".to_string()));
    let offer_text = match act {
        NegotiationAction::SendOffer(to, sdp) => sig_a.send_offer(&to, &sdp),
        _ => panic!("initiator must send an offer"),
    };
    assert!(srv.handle_msg(&offer_text, "A").is_none());
    assert_eq!(neg_a.state, SessionState::OfferSent);
}
