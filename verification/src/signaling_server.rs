//! The signaling relay.
//!
//! The relay accepts connections, assigns each a fresh identifier, and
//! keeps the only shared state of the system: the table from identifier
//! to outbound sink. For every inbound message it either answers an
//! identity query with the sender's own identifier or rewrites an
//! addressed offer/answer — stamping in the authoritative sender
//! identifier — and forwards it to the addressed identifier's sink.
//! Unparseable messages and messages addressed to unmapped identifiers
//! are dropped silently; the sender is never told.
//!
//! The embedding program owns the sockets: it hands each connection's
//! sink a numeric handle, and performs the one transmission that
//! [`SignalingServer::handle_msg`] asks for.

use vstd::prelude::*;

use crate::codec::decode_client_message;
use crate::codec::enc_client_answer;
use crate::codec::enc_client_offer;
use crate::codec::enc_get_my_id;
use crate::codec::enc_server_answer;
use crate::codec::enc_server_id;
use crate::codec::enc_server_offer;
use crate::codec::encode_server_message;
use crate::codec::lemma_enc_client_answer_unamb;
use crate::codec::lemma_enc_client_kinds;
use crate::codec::lemma_enc_client_offer_unamb;
use crate::messages::ClientMessage;
use crate::messages::ID;
use crate::messages::ServerAnswer;
use crate::messages::ServerMessage;
use crate::messages::ServerOffer;
use crate::table::StrMap;

verus! {

/// What the relay wants transmitted in reaction to one inbound message:
/// the destination identifier, that identifier's sink handle, and the
/// payload to write there.
pub struct Delivery {
    pub to: String,
    pub sink: u64,
    pub payload: String,
}

/// The relay's one piece of state: the identifier-to-sink table.
pub struct SignalingServer {
    sockets: StrMap<u64>,
}

/// What any delivery the relay produces for `msg` from `sender` must
/// look like: an identity reply to the sender itself, or the addressed
/// forward of the offer or answer that `msg` is, with `sender` stamped
/// in as the authoritative origin.
pub open spec fn delivery_shape(msg: Seq<char>, sender: Seq<char>, d: Delivery) -> bool {
    ||| (msg == enc_get_my_id() && d.to@ == sender && d.payload@ == enc_server_id(sender))
    ||| (exists|to: Seq<char>, sdp: Seq<char>|
        msg == #[trigger] enc_client_offer(to, sdp) && d.to@ == to && d.payload@
            == enc_server_offer(sender, to, sdp))
    ||| (exists|to: Seq<char>, sdp: Seq<char>|
        msg == #[trigger] enc_client_answer(to, sdp) && d.to@ == to && d.payload@
            == enc_server_answer(sender, to, sdp))
}

/// An identity query's reply is a function of the sender alone: any
/// two deliveries the relay may produce for `GetMyID` from the same
/// sender go to that sender and carry the same payload.
pub proof fn lemma_identity_reply_stable(msg: Seq<char>, sender: Seq<char>, d1: Delivery, d2: Delivery)
    requires
        msg == enc_get_my_id(),
        delivery_shape(msg, sender, d1),
        delivery_shape(msg, sender, d2),
    ensures
        d1.to@ == sender,
        d2.to@ == sender,
        d1.payload@ == d2.payload@,
{
    assert(d1.to@ == sender && d1.payload@ == enc_server_id(sender)) by {
        if exists|to: Seq<char>, sdp: Seq<char>|
            msg == #[trigger] enc_client_offer(to, sdp) && d1.to@ == to && d1.payload@
                == enc_server_offer(sender, to, sdp) {
            let (to, sdp) = choose|to: Seq<char>, sdp: Seq<char>|
                msg == #[trigger] enc_client_offer(to, sdp) && d1.to@ == to && d1.payload@
                    == enc_server_offer(sender, to, sdp);
            lemma_enc_client_kinds(to, sdp, to, sdp);
        }
        if exists|to: Seq<char>, sdp: Seq<char>|
            msg == #[trigger] enc_client_answer(to, sdp) && d1.to@ == to && d1.payload@
                == enc_server_answer(sender, to, sdp) {
            let (to, sdp) = choose|to: Seq<char>, sdp: Seq<char>|
                msg == #[trigger] enc_client_answer(to, sdp) && d1.to@ == to && d1.payload@
                    == enc_server_answer(sender, to, sdp);
            lemma_enc_client_kinds(to, sdp, to, sdp);
        }
    }
    assert(d2.to@ == sender && d2.payload@ == enc_server_id(sender)) by {
        if exists|to: Seq<char>, sdp: Seq<char>|
            msg == #[trigger] enc_client_offer(to, sdp) && d2.to@ == to && d2.payload@
                == enc_server_offer(sender, to, sdp) {
            let (to, sdp) = choose|to: Seq<char>, sdp: Seq<char>|
                msg == #[trigger] enc_client_offer(to, sdp) && d2.to@ == to && d2.payload@
                    == enc_server_offer(sender, to, sdp);
            lemma_enc_client_kinds(to, sdp, to, sdp);
        }
        if exists|to: Seq<char>, sdp: Seq<char>|
            msg == #[trigger] enc_client_answer(to, sdp) && d2.to@ == to && d2.payload@
                == enc_server_answer(sender, to, sdp) {
            let (to, sdp) = choose|to: Seq<char>, sdp: Seq<char>|
                msg == #[trigger] enc_client_answer(to, sdp) && d2.to@ == to && d2.payload@
                    == enc_server_answer(sender, to, sdp);
            lemma_enc_client_kinds(to, sdp, to, sdp);
        }
    }
}

/// Relies on `uuid::Uuid::new_v4` and its `Display` implementation: a
/// fresh random version-4 identifier, printed in the hyphenated form,
/// which is 36 characters long. Uniqueness against the current table is
/// checked by the caller, not assumed here. The draw aborts, like an
/// allocation failure, if the host's random source is unavailable; no
/// input reaches that.
#[verifier::external_body]
fn fresh_peer_id() -> (r: String)
    ensures
        r@.len() == 36,
{
    uuid::Uuid::new_v4().to_string()
}

impl View for SignalingServer {
    type V = Map<Seq<char>, u64>;

    closed spec fn view(&self) -> Map<Seq<char>, u64> {
        self.sockets@
    }
}

impl SignalingServer {
    /// The table's keys are pairwise distinct.
    pub closed spec fn wf(&self) -> bool {
        self.sockets.wf()
    }

    /// A relay with no connections.
    pub fn new() -> (r: SignalingServer)
        ensures
            r.wf(),
            r@ == Map::<Seq<char>, u64>::empty(),
    {
        SignalingServer { sockets: StrMap::new() }
    }

    /// Accepts a connection: draws a fresh identifier, stores its sink
    /// under it and returns it. Returns `None`, leaving the table
    /// unchanged, only in the negligible case that the drawn identifier
    /// is already present — which no table without a 36-character key
    /// can bring about, since the draw is 36 characters long; the
    /// caller may simply try again.
    pub fn add(&mut self, sink: u64) -> (r: Option<String>)
        requires
            old(self).wf(),
        ensures
            final(self).wf(),
            match r {
                Some(id) => !old(self)@.contains_key(id@) && final(self)@ == old(self)@.insert(
                    id@,
                    sink,
                ) && id@.len() == 36,
                None => *final(self) == *old(self),
            },
            old(self)@ == Map::<Seq<char>, u64>::empty() ==> r is Some,
            (forall|k: Seq<char>| old(self)@.dom().contains(k) ==> k.len() != 36) ==> r is Some,
    {
        let id = fresh_peer_id();
        if self.register(id.clone(), sink) {
            Some(id)
        } else {
            proof {
                assert(old(self)@.contains_key(id@));
                assert(old(self)@.dom().contains(id@));
                assert(id@.len() == 36);
            }
            None
        }
    }

    /// Stores `sink` under `id` if `id` is not yet taken; reports
    /// whether it did.
    pub fn register(&mut self, id: String, sink: u64) -> (ok: bool)
        requires
            old(self).wf(),
        ensures
            final(self).wf(),
            ok <==> !old(self)@.contains_key(id@),
            ok ==> final(self)@ == old(self)@.insert(id@, sink),
            !ok ==> *final(self) == *old(self),
    {
        if self.sockets.contains_key(id.as_str()) {
            false
        } else {
            self.sockets.insert(id, sink);
            true
        }
    }

    /// Drops `id`'s mapping; no peer is notified.
    pub fn remove(&mut self, id: &str)
        requires
            old(self).wf(),
        ensures
            final(self).wf(),
            final(self)@ == old(self)@.remove(id@),
    {
        let _ = self.sockets.remove(id);
    }

    /// The sink stored under `id`, if any.
    pub fn sink_of(&self, id: &str) -> (r: Option<u64>)
        requires
            self.wf(),
        ensures
            r matches Some(s) ==> self@.contains_key(id@) && s == self@[id@],
            r is None ==> !self@.contains_key(id@),
    {
        match self.sockets.get(id) {
            Some(s) => Some(*s),
            None => None,
        }
    }

    /// Handles one inbound message from the connection whose assigned
    /// identifier is `socket_id`: answers an identity query with that
    /// identifier, rewrites an offer or answer with the authoritative
    /// sender and routes it to its addressed destination, and drops
    /// everything else — unparseable input as well as messages to
    /// identifiers with no live mapping — returning `None` with no
    /// error to the sender.
    pub fn handle_msg(&self, msg: &str, socket_id: &str) -> (r: Option<Delivery>)
        requires
            self.wf(),
        ensures
            r matches Some(d) ==> self@.contains_key(d.to@) && d.sink == self@[d.to@],
            r matches Some(d) ==> delivery_shape(msg@, socket_id@, d),
            msg@ == enc_get_my_id() ==> (r is Some <==> self@.contains_key(socket_id@)),
            forall|to: Seq<char>, sdp: Seq<char>|
                msg@ == #[trigger] enc_client_offer(to, sdp) ==> (r is Some
                    <==> self@.contains_key(to)),
            forall|to: Seq<char>, sdp: Seq<char>|
                msg@ == #[trigger] enc_client_answer(to, sdp) ==> (r is Some
                    <==> self@.contains_key(to)),
            (msg@ != enc_get_my_id() && (forall|to: Seq<char>, sdp: Seq<char>|
                msg@ != #[trigger] enc_client_offer(to, sdp)) && (forall|
                to: Seq<char>,
                sdp: Seq<char>,
            |
                msg@ != #[trigger] enc_client_answer(to, sdp))) ==> r is None,
    {
        match decode_client_message(msg) {
            None => None,
            Some(m) => match m {
                ClientMessage::GetMyID => {
                    proof {
                        assert forall|to: Seq<char>, sdp: Seq<char>|
                            msg@ != #[trigger] enc_client_offer(to, sdp) by {
                            lemma_enc_client_kinds(to, sdp, to, sdp);
                        }
                        assert forall|to: Seq<char>, sdp: Seq<char>|
                            msg@ != #[trigger] enc_client_answer(to, sdp) by {
                            lemma_enc_client_kinds(to, sdp, to, sdp);
                        }
                    }
                    match self.sink_of(socket_id) {
                        Some(s) => {
                            let reply = ServerMessage::ID(ID { id: socket_id.to_owned() });
                            let payload = encode_server_message(&reply);
                            Some(Delivery { to: socket_id.to_owned(), sink: s, payload })
                        },
                        None => None,
                    }
                },
                ClientMessage::Offer(o) => {
                    proof {
                        assert(msg@ == enc_client_offer(o.to@, o.sdp@));
                        lemma_enc_client_kinds(o.to@, o.sdp@, o.to@, o.sdp@);
                        assert forall|to: Seq<char>, sdp: Seq<char>|
                            msg@ != #[trigger] enc_client_answer(to, sdp) by {
                            lemma_enc_client_kinds(o.to@, o.sdp@, to, sdp);
                        }
                        assert forall|to: Seq<char>, sdp: Seq<char>|
                            msg@ == #[trigger] enc_client_offer(to, sdp) implies to == o.to@
                            && sdp == o.sdp@ by {
                            lemma_enc_client_offer_unamb(to, sdp, o.to@, o.sdp@);
                        }
                    }
                    match self.sink_of(o.to.as_str()) {
                        Some(s) => {
                            let fwd = ServerMessage::Offer(
                                ServerOffer {
                                    from: socket_id.to_owned(),
                                    to: o.to.clone(),
                                    sdp: o.sdp,
                                },
                            );
                            let payload = encode_server_message(&fwd);
                            Some(Delivery { to: o.to, sink: s, payload })
                        },
                        None => None,
                    }
                },
                ClientMessage::Answer(a) => {
                    proof {
                        assert(msg@ == enc_client_answer(a.to@, a.sdp@));
                        lemma_enc_client_kinds(a.to@, a.sdp@, a.to@, a.sdp@);
                        assert forall|to: Seq<char>, sdp: Seq<char>|
                            msg@ != #[trigger] enc_client_offer(to, sdp) by {
                            lemma_enc_client_kinds(to, sdp, a.to@, a.sdp@);
                        }
                        assert forall|to: Seq<char>, sdp: Seq<char>|
                            msg@ == #[trigger] enc_client_answer(to, sdp) implies to == a.to@
                            && sdp == a.sdp@ by {
                            lemma_enc_client_answer_unamb(to, sdp, a.to@, a.sdp@);
                        }
                    }
                    match self.sink_of(a.to.as_str()) {
                        Some(s) => {
                            let fwd = ServerMessage::Answer(
                                ServerAnswer {
                                    from: socket_id.to_owned(),
                                    to: a.to.clone(),
                                    sdp: a.sdp,
                                },
                            );
                            let payload = encode_server_message(&fwd);
                            Some(Delivery { to: a.to, sink: s, payload })
                        },
                        None => None,
                    }
                },
            },
        }
    }
}

} // verus!
