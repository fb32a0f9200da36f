//! The connection registry.
//!
//! Negotiated sessions live here, keyed by remote identifier and
//! classified as pending, established or closed. Transport callbacks
//! append connect/disconnect transitions and inbound application
//! messages to two ordered buffers; the caller's poll cycle takes both
//! with one [`ConnectionRegistry::drain`], which never blocks and
//! never leaves a half-drained state behind. Sending to a peer without
//! an established session is a no-op, not a fault: the caller learns of
//! connectivity through the event stream, never through send errors.

use vstd::prelude::*;

use crate::table::StrMap;

verus! {

/// A connect or disconnect transition, tagged with the remote peer.
#[derive(Debug)]
pub enum ConnectionUpdate {
    Connected(String),
    Disconnected(String),
}

/// What the registry knows of one remote peer's session.
#[derive(Debug, Clone, Copy, PartialEq, Eq, Structural)]
pub enum SessionStatus {
    /// Negotiation is under way; there is nothing to send on yet.
    Pending,
    /// The data channel is open, under this handle.
    Established(u64),
    /// The session ended; the handle is gone.
    Closed,
}

/// Sessions by remote identifier, and the two drain buffers.
pub struct ConnectionRegistry {
    sessions: StrMap<SessionStatus>,
    events: Vec<ConnectionUpdate>,
    messages: Vec<(String, String)>,
}

/// What a drain hands out and what it leaves behind: the buffered
/// sequences come out in order, and both buffers are left empty.
pub open spec fn drain_spec(evs: Seq<ConnectionUpdate>, msgs: Seq<(String, String)>) -> (
    (Seq<ConnectionUpdate>, Seq<(String, String)>),
    (Seq<ConnectionUpdate>, Seq<(String, String)>),
) {
    ((evs, msgs), (Seq::empty(), Seq::empty()))
}

/// Draining is idempotent: with no pushes in between, a second drain
/// returns two empty sequences and leaves the buffers as the first
/// drain left them.
pub proof fn lemma_drain_idempotent(evs: Seq<ConnectionUpdate>, msgs: Seq<(String, String)>)
    ensures
        ({
            let (out1, rest1) = drain_spec(evs, msgs);
            let (out2, rest2) = drain_spec(rest1.0, rest1.1);
            out2.0.len() == 0 && out2.1.len() == 0 && rest2 == rest1
        }),
{
}

impl ConnectionRegistry {
    /// The session table's keys are pairwise distinct.
    pub closed spec fn wf(&self) -> bool {
        self.sessions.wf()
    }

    /// The sessions, by remote identifier.
    pub closed spec fn sessions_view(&self) -> Map<Seq<char>, SessionStatus> {
        self.sessions@
    }

    /// The buffered transitions, oldest first.
    pub closed spec fn events_view(&self) -> Seq<ConnectionUpdate> {
        self.events@
    }

    /// The buffered (peer, payload) application messages, oldest first.
    pub closed spec fn messages_view(&self) -> Seq<(String, String)> {
        self.messages@
    }

    /// An empty registry.
    pub fn new() -> (r: ConnectionRegistry)
        ensures
            r.wf(),
            r.sessions_view() == Map::<Seq<char>, SessionStatus>::empty(),
            r.events_view() == Seq::<ConnectionUpdate>::empty(),
            r.messages_view() == Seq::<(String, String)>::empty(),
    {
        ConnectionRegistry { sessions: StrMap::new(), events: Vec::new(), messages: Vec::new() }
    }

    /// Notes that negotiation with `peer` has begun. A second attempt
    /// while a session with `peer` is pending or established is
    /// rejected: the registry is unchanged and the caller must not
    /// start another negotiation.
    pub fn pending(&mut self, peer: String) -> (ok: bool)
        requires
            old(self).wf(),
        ensures
            final(self).wf(),
            ok <==> !(old(self).sessions_view().contains_key(peer@) && (old(
                self,
            ).sessions_view()[peer@] is Pending || old(self).sessions_view()[peer@] is Established)),
            ok ==> final(self).sessions_view() == old(self).sessions_view().insert(
                peer@,
                SessionStatus::Pending,
            ),
            !ok ==> final(self).sessions_view() == old(self).sessions_view(),
            final(self).events_view() == old(self).events_view(),
            final(self).messages_view() == old(self).messages_view(),
    {
        let live = match self.sessions.get(peer.as_str()) {
            Some(SessionStatus::Pending) => true,
            Some(SessionStatus::Established(_)) => true,
            _ => false,
        };
        if live {
            false
        } else {
            self.sessions.insert(peer, SessionStatus::Pending);
            true
        }
    }

    /// Hands an opened session over: `peer` becomes established under
    /// `channel`, and one connected transition is buffered.
    pub fn connected(&mut self, peer: String, channel: u64)
        requires
            old(self).wf(),
        ensures
            final(self).wf(),
            final(self).sessions_view() == old(self).sessions_view().insert(
                peer@,
                SessionStatus::Established(channel),
            ),
            final(self).events_view() == old(self).events_view().push(
                ConnectionUpdate::Connected(peer),
            ),
            final(self).messages_view() == old(self).messages_view(),
    {
        self.sessions.insert(peer.clone(), SessionStatus::Established(channel));
        self.events.push(ConnectionUpdate::Connected(peer));
    }

    /// Notes that `peer`'s session ended: it is classified closed and
    /// one disconnected transition is buffered.
    pub fn disconnected(&mut self, peer: String)
        requires
            old(self).wf(),
        ensures
            final(self).wf(),
            final(self).sessions_view() == old(self).sessions_view().insert(
                peer@,
                SessionStatus::Closed,
            ),
            final(self).events_view() == old(self).events_view().push(
                ConnectionUpdate::Disconnected(peer),
            ),
            final(self).messages_view() == old(self).messages_view(),
    {
        self.sessions.insert(peer.clone(), SessionStatus::Closed);
        self.events.push(ConnectionUpdate::Disconnected(peer));
    }

    /// Buffers one inbound application message from `peer`.
    pub fn push_message(&mut self, peer: String, payload: String)
        requires
            old(self).wf(),
        ensures
            final(self).wf(),
            final(self).sessions_view() == old(self).sessions_view(),
            final(self).events_view() == old(self).events_view(),
            final(self).messages_view() == old(self).messages_view().push((peer, payload)),
    {
        self.messages.push((peer, payload));
    }

    /// Takes both buffers at once: the transitions and the application
    /// messages, each in arrival order, leaving both empty. Never
    /// blocks; two empty vectors are a valid result.
    pub fn drain(&mut self) -> (r: (Vec<ConnectionUpdate>, Vec<(String, String)>))
        requires
            old(self).wf(),
        ensures
            final(self).wf(),
            final(self).sessions_view() == old(self).sessions_view(),
            (r.0@, r.1@) == drain_spec(old(self).events_view(), old(self).messages_view()).0,
            (final(self).events_view(), final(self).messages_view()) == drain_spec(
                old(self).events_view(),
                old(self).messages_view(),
            ).1,
    {
        let mut evs: Vec<ConnectionUpdate> = Vec::new();
        let mut msgs: Vec<(String, String)> = Vec::new();
        core::mem::swap(&mut evs, &mut self.events);
        core::mem::swap(&mut msgs, &mut self.messages);
        (evs, msgs)
    }

    /// The channel to transmit `payload` on, if `peer` has an
    /// established session — together with the payload to write. For a
    /// peer that never connected, is still pending, or was removed,
    /// returns `None`: a silent no-op, never an error.
    pub fn send(&self, peer: &str, payload: &str) -> (r: Option<(u64, String)>)
        requires
            self.wf(),
        ensures
            match r {
                Some(p) => self.sessions_view().contains_key(peer@) && self.sessions_view()[peer@]
                    == SessionStatus::Established(p.0) && p.1@ == payload@,
                None => !(self.sessions_view().contains_key(peer@)
                    && self.sessions_view()[peer@] is Established),
            },
    {
        match self.sessions.get(peer) {
            Some(status) => match status {
                SessionStatus::Established(ch) => Some((*ch, payload.to_owned())),
                _ => None,
            },
            None => None,
        }
    }

    /// Forgets `peer`'s session entirely.
    pub fn remove(&mut self, peer: &str)
        requires
            old(self).wf(),
        ensures
            final(self).wf(),
            final(self).sessions_view() == old(self).sessions_view().remove(peer@),
            final(self).events_view() == old(self).events_view(),
            final(self).messages_view() == old(self).messages_view(),
    {
        let _ = self.sessions.remove(peer);
    }
}

} // verus!
