//! The session negotiation state machine.
//!
//! Each endpoint runs one session per remote peer. The initiator walks
//! `Idle → OfferSent → AnswerReceived → ChannelOpen`; the responder
//! walks `OfferReceived → AnswerSent → ChannelOpen` (its session is
//! created on receipt of the offer, so `Idle` is the initiator's
//! starting state only). `Failed` is terminal and reachable from every
//! state but the two terminal ones; no state is ever revisited.
//!
//! The machine is pure: the embedding program performs the transport
//! work — creating the session and channel, generating descriptors,
//! waiting for gathering, watching the channel — and feeds the outcome
//! in as a [`NegotiationEvent`]. Each step hands back the one
//! [`NegotiationAction`] to perform. Events that do not belong to the
//! session's current step are ignored, not faults: other sessions'
//! traffic is dispatched elsewhere, and a stray or repeated event
//! leaves the session unchanged.

use vstd::prelude::*;

use crate::codec::str_eq;

verus! {

/// Which side of the negotiation this session drives.
#[derive(Debug, Clone, Copy, PartialEq, Eq, Structural)]
pub enum Role {
    Initiator,
    Responder,
}

/// Lifecycle of one negotiation.
#[derive(Debug, Clone, Copy, PartialEq, Eq, Structural)]
pub enum SessionState {
    Idle,
    OfferSent,
    OfferReceived,
    AnswerSent,
    AnswerReceived,
    ChannelOpen,
    Failed,
}

/// One outcome of transport or signaling work, fed into a step.
#[derive(Debug)]
pub enum NegotiationEvent {
    /// Descriptor gathering finished; the local descriptor is final.
    LocalReady(String),
    /// A forwarded answer arrived: its sender and its descriptor.
    AnswerArrived(String, String),
    /// The data channel reported open, under this handle.
    ChannelOpened(u64),
    /// The transport failed fatally for this session.
    TransportFailed,
}

/// What the embedding program must do after a step.
#[derive(Debug)]
pub enum NegotiationAction {
    /// Send an offer with this destination and descriptor.
    SendOffer(String, String),
    /// Send an answer with this destination and descriptor.
    SendAnswer(String, String),
    /// Apply this remote answer descriptor to the transport.
    ApplyRemoteAnswer(String),
    /// The channel is open: hand the session to the registry and emit
    /// a connected transition for this remote peer.
    Connected(String),
    /// Nothing: the event did not belong to the current step.
    Ignore,
    /// The session failed: discard it.
    Abandon,
}

/// One endpoint's negotiation with one remote peer.
pub struct NegotiationSession {
    pub remote: String,
    pub role: Role,
    pub state: SessionState,
    pub local_sdp: Option<String>,
    pub remote_sdp: Option<String>,
    pub channel: Option<u64>,
}

/// The initiator's starting session toward `remote`.
pub open spec fn initiator_start(remote: String) -> NegotiationSession {
    NegotiationSession {
        remote,
        role: Role::Initiator,
        state: SessionState::Idle,
        local_sdp: None,
        remote_sdp: None,
        channel: None,
    }
}

/// The responder's starting session, created on receipt of an offer
/// from `remote` carrying `sdp`.
pub open spec fn responder_start(remote: String, sdp: String) -> NegotiationSession {
    NegotiationSession {
        remote,
        role: Role::Responder,
        state: SessionState::OfferReceived,
        local_sdp: None,
        remote_sdp: Some(sdp),
        channel: None,
    }
}

/// The whole transition relation, as a function: the session after the
/// event, and the action the embedding program owes.
pub open spec fn step_func(pre: NegotiationSession, ev: NegotiationEvent) -> (
    NegotiationSession,
    NegotiationAction,
) {
    match ev {
        NegotiationEvent::LocalReady(sdp) => {
            if pre.state == SessionState::Idle && pre.role == Role::Initiator {
                (
                    NegotiationSession {
                        state: SessionState::OfferSent,
                        local_sdp: Some(sdp),
                        ..pre
                    },
                    NegotiationAction::SendOffer(pre.remote, sdp),
                )
            } else if pre.state == SessionState::OfferReceived && pre.role == Role::Responder {
                (
                    NegotiationSession {
                        state: SessionState::AnswerSent,
                        local_sdp: Some(sdp),
                        ..pre
                    },
                    NegotiationAction::SendAnswer(pre.remote, sdp),
                )
            } else {
                (pre, NegotiationAction::Ignore)
            }
        },
        NegotiationEvent::AnswerArrived(from, sdp) => {
            if pre.state == SessionState::OfferSent && from@ == pre.remote@ {
                (
                    NegotiationSession {
                        state: SessionState::AnswerReceived,
                        remote_sdp: Some(sdp),
                        ..pre
                    },
                    NegotiationAction::ApplyRemoteAnswer(sdp),
                )
            } else {
                (pre, NegotiationAction::Ignore)
            }
        },
        NegotiationEvent::ChannelOpened(ch) => {
            if pre.state == SessionState::AnswerReceived || pre.state == SessionState::AnswerSent {
                (
                    NegotiationSession {
                        state: SessionState::ChannelOpen,
                        channel: Some(ch),
                        ..pre
                    },
                    NegotiationAction::Connected(pre.remote),
                )
            } else {
                (pre, NegotiationAction::Ignore)
            }
        },
        NegotiationEvent::TransportFailed => {
            if pre.state == SessionState::ChannelOpen || pre.state == SessionState::Failed {
                (pre, NegotiationAction::Ignore)
            } else {
                (NegotiationSession { state: SessionState::Failed, ..pre }, NegotiationAction::Abandon)
            }
        },
    }
}

/// States the initiator's path uses, states the responder's path uses,
/// and descriptors present when a state implies them.
pub open spec fn session_wf(s: NegotiationSession) -> bool {
    &&& (s.role == Role::Initiator ==> s.state != SessionState::OfferReceived && s.state
        != SessionState::AnswerSent)
    &&& (s.role == Role::Responder ==> s.state != SessionState::Idle && s.state
        != SessionState::OfferSent && s.state != SessionState::AnswerReceived)
    &&& (s.state == SessionState::OfferSent ==> s.local_sdp is Some)
    &&& (s.state == SessionState::AnswerSent ==> s.local_sdp is Some && s.remote_sdp is Some)
    &&& (s.state == SessionState::AnswerReceived ==> s.local_sdp is Some && s.remote_sdp is Some)
    &&& (s.state == SessionState::ChannelOpen ==> s.channel is Some && s.local_sdp is Some
        && s.remote_sdp is Some)
    &&& (s.role == Role::Responder ==> s.state == SessionState::Failed || s.remote_sdp is Some)
}

impl NegotiationSession {
    /// Starts an outbound negotiation toward `remote`. The embedding
    /// program then creates the transport session and outbound channel
    /// — the channel before the descriptor, which depends on it —
    /// gathers the local descriptor and feeds `LocalReady`.
    pub fn start_initiator(remote: String) -> (r: NegotiationSession)
        ensures
            r == initiator_start(remote),
            session_wf(r),
    {
        NegotiationSession {
            remote,
            role: Role::Initiator,
            state: SessionState::Idle,
            local_sdp: None,
            remote_sdp: None,
            channel: None,
        }
    }

    /// Starts an inbound negotiation on receipt of an offer from
    /// `remote` carrying `sdp`. The embedding program applies the
    /// remote descriptor, gathers the local answer and feeds
    /// `LocalReady`; no outbound channel is created — the channel
    /// arrives from the transport once the initiator's is visible.
    pub fn start_responder(remote: String, sdp: String) -> (r: NegotiationSession)
        ensures
            r == responder_start(remote, sdp),
            session_wf(r),
    {
        NegotiationSession {
            remote,
            role: Role::Responder,
            state: SessionState::OfferReceived,
            local_sdp: None,
            remote_sdp: Some(sdp),
            channel: None,
        }
    }

    /// Feeds one event to the session and returns the action owed.
    pub fn step(&mut self, ev: NegotiationEvent) -> (act: NegotiationAction)
        ensures
            (*final(self), act) == step_func(*old(self), ev),
    {
        match ev {
            NegotiationEvent::LocalReady(sdp) => {
                if self.state == SessionState::Idle && self.role == Role::Initiator {
                    let to = self.remote.clone();
                    self.local_sdp = Some(sdp.clone());
                    self.state = SessionState::OfferSent;
                    NegotiationAction::SendOffer(to, sdp)
                } else if self.state == SessionState::OfferReceived && self.role
                    == Role::Responder {
                    let to = self.remote.clone();
                    self.local_sdp = Some(sdp.clone());
                    self.state = SessionState::AnswerSent;
                    NegotiationAction::SendAnswer(to, sdp)
                } else {
                    NegotiationAction::Ignore
                }
            },
            NegotiationEvent::AnswerArrived(from, sdp) => {
                if self.state == SessionState::OfferSent && str_eq(
                    from.as_str(),
                    self.remote.as_str(),
                ) {
                    self.remote_sdp = Some(sdp.clone());
                    self.state = SessionState::AnswerReceived;
                    NegotiationAction::ApplyRemoteAnswer(sdp)
                } else {
                    NegotiationAction::Ignore
                }
            },
            NegotiationEvent::ChannelOpened(ch) => {
                if self.state == SessionState::AnswerReceived || self.state
                    == SessionState::AnswerSent {
                    self.channel = Some(ch);
                    self.state = SessionState::ChannelOpen;
                    NegotiationAction::Connected(self.remote.clone())
                } else {
                    NegotiationAction::Ignore
                }
            },
            NegotiationEvent::TransportFailed => {
                if self.state == SessionState::ChannelOpen || self.state == SessionState::Failed {
                    NegotiationAction::Ignore
                } else {
                    self.state = SessionState::Failed;
                    NegotiationAction::Abandon
                }
            },
        }
    }
}

/// How far along a state is; both terminal states rank highest.
pub open spec fn state_rank(s: SessionState) -> int {
    match s {
        SessionState::Idle => 0,
        SessionState::OfferSent => 1,
        SessionState::OfferReceived => 1,
        SessionState::AnswerSent => 2,
        SessionState::AnswerReceived => 2,
        SessionState::ChannelOpen => 3,
        SessionState::Failed => 3,
    }
}

/// No state is ever revisited: a step either leaves the session exactly
/// as it was, or strictly advances its rank — so once a state is left,
/// no later step can reach it again. The remote peer and the role never
/// change, and well-formedness is preserved.
pub proof fn lemma_step_no_revisit(pre: NegotiationSession, ev: NegotiationEvent)
    ensures
        ({
            let (post, act) = step_func(pre, ev);
            &&& post == pre || state_rank(post.state) > state_rank(pre.state)
            &&& post.remote == pre.remote
            &&& post.role == pre.role
            &&& session_wf(pre) ==> session_wf(post)
        }),
{
}

/// For every pair of peers and every pair of descriptors: an initiator
/// driven through its sequence, against a responder created from the
/// delivered offer and driven through its sequence, converges to
/// `ChannelOpen` on both sides — and each side's trace contains exactly
/// one `Connected` hand-off to the registry, naming the other's
/// identifier.
pub proof fn lemma_loopback_handshake(
    a: String,
    b: String,
    offer_sdp: String,
    answer_sdp: String,
    ca: u64,
    cb: u64,
)
    ensures
        ({
            let i0 = initiator_start(b);
            let (i1, act1) = step_func(i0, NegotiationEvent::LocalReady(offer_sdp));
            let r0 = responder_start(a, offer_sdp);
            let (r1, act2) = step_func(r0, NegotiationEvent::LocalReady(answer_sdp));
            let (i2, act3) = step_func(i1, NegotiationEvent::AnswerArrived(b, answer_sdp));
            let (i3, act4) = step_func(i2, NegotiationEvent::ChannelOpened(ca));
            let (r2, act5) = step_func(r1, NegotiationEvent::ChannelOpened(cb));
            &&& act1 == NegotiationAction::SendOffer(b, offer_sdp)
            &&& act2 == NegotiationAction::SendAnswer(a, answer_sdp)
            &&& act3 == NegotiationAction::ApplyRemoteAnswer(answer_sdp)
            &&& act4 == NegotiationAction::Connected(b)
            &&& act5 == NegotiationAction::Connected(a)
            &&& i3.state == SessionState::ChannelOpen
            &&& r2.state == SessionState::ChannelOpen
            &&& i3.channel == Some(ca)
            &&& r2.channel == Some(cb)
            &&& !(act1 is Connected) && !(act2 is Connected) && !(act3 is Connected)
        }),
{
}

} // verus!
