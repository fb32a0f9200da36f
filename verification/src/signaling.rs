//! Client-side signaling state.
//!
//! One long-lived relay connection feeds this state: every inbound
//! line of text is handed to [`Signaling::handle_incoming`], which
//! caches the endpoint's own identifier from the first identity reply,
//! stores forwarded answers by the peer they came from, and queues
//! forwarded offers. The negotiator pulls answers and offers out
//! without blocking; the outbound messages it needs are built here and
//! handed back as text for the embedding program to write to the
//! socket.

use vstd::prelude::*;

use crate::codec::decode_server_message;
use crate::codec::enc_client_answer;
use crate::codec::enc_client_offer;
use crate::codec::enc_get_my_id;
use crate::codec::enc_server_answer;
use crate::codec::enc_server_id;
use crate::codec::enc_server_offer;
use crate::codec::encode_client_message;
use crate::codec::lemma_enc_server_answer_unamb;
use crate::codec::lemma_enc_server_id_unamb;
use crate::codec::lemma_enc_server_kinds;
use crate::codec::lemma_enc_server_offer_unamb;
use crate::messages::ClientAnswer;
use crate::messages::ClientMessage;
use crate::messages::ClientOffer;
use crate::messages::ServerMessage;
use crate::messages::ServerOffer;
use crate::table::StrMap;

verus! {

/// What an endpoint knows of its relay session: its own identifier once
/// assigned, the answers that have arrived keyed by sender, and the
/// offers waiting to be taken up.
pub struct Signaling {
    id: Option<String>,
    answers: StrMap<String>,
    offers: Vec<ServerOffer>,
}

impl Signaling {
    /// The answer store's keys are pairwise distinct.
    pub closed spec fn wf(&self) -> bool {
        self.answers.wf()
    }

    /// The cached own identifier, if one has arrived.
    pub closed spec fn id_view(&self) -> Option<Seq<char>> {
        match self.id {
            Some(s) => Some(s@),
            None => None,
        }
    }

    /// The stored answers: sender identifier to descriptor.
    pub closed spec fn answers_view(&self) -> Map<Seq<char>, Seq<char>> {
        self.answers@.map_values(|v: String| v@)
    }

    /// The queued offers, oldest first, as (from, to, sdp) views.
    pub closed spec fn offers_view(&self) -> Seq<(Seq<char>, Seq<char>, Seq<char>)> {
        self.offers@.map_values(|o: ServerOffer| (o.from@, o.to@, o.sdp@))
    }

    /// Fresh state: no identifier, no answers, no offers.
    pub fn new() -> (r: Signaling)
        ensures
            r.wf(),
            r.id_view() is None,
            r.answers_view() == Map::<Seq<char>, Seq<char>>::empty(),
            r.offers_view() == Seq::<(Seq<char>, Seq<char>, Seq<char>)>::empty(),
    {
        let r = Signaling { id: None, answers: StrMap::new(), offers: Vec::new() };
        proof {
            assert(r.answers_view() =~= Map::<Seq<char>, Seq<char>>::empty());
            assert(r.offers_view() =~= Seq::<(Seq<char>, Seq<char>, Seq<char>)>::empty());
        }
        r
    }

    /// The cached own identifier.
    pub fn id(&self) -> (r: Option<&String>)
        ensures
            match r {
                Some(s) => self.id_view() == Some(s@),
                None => self.id_view() is None,
            },
    {
        self.id.as_ref()
    }

    /// The identity request to write to the relay.
    pub fn get_my_id_message() -> (r: String)
        ensures
            r@ == enc_get_my_id(),
    {
        encode_client_message(&ClientMessage::GetMyID)
    }

    /// The offer to write to the relay, addressed to `peer_id`.
    pub fn send_offer(&self, peer_id: &str, sdp: &str) -> (r: String)
        ensures
            r@ == enc_client_offer(peer_id@, sdp@),
    {
        encode_client_message(
            &ClientMessage::Offer(ClientOffer { to: peer_id.to_owned(), sdp: sdp.to_owned() }),
        )
    }

    /// The answer to write to the relay, addressed to `peer_id`.
    pub fn send_answer(&self, peer_id: &str, sdp: &str) -> (r: String)
        ensures
            r@ == enc_client_answer(peer_id@, sdp@),
    {
        encode_client_message(
            &ClientMessage::Answer(ClientAnswer { to: peer_id.to_owned(), sdp: sdp.to_owned() }),
        )
    }

    /// Digests one line of text from the relay. The first identity
    /// reply fixes the endpoint's identifier for good; forwarded
    /// answers are stored under their sender, a later answer from the
    /// same sender replacing the earlier; forwarded offers are queued;
    /// anything unparseable leaves the state untouched.
    pub fn handle_incoming(&mut self, text: &str)
        requires
            old(self).wf(),
        ensures
            final(self).wf(),
            ((forall|id: Seq<char>| text@ != #[trigger] enc_server_id(id)) && (forall|
                f: Seq<char>,
                t: Seq<char>,
                s: Seq<char>,
            | text@ != #[trigger] enc_server_offer(f, t, s)) && (forall|
                f: Seq<char>,
                t: Seq<char>,
                s: Seq<char>,
            | text@ != #[trigger] enc_server_answer(f, t, s))) ==> *final(self) == *old(self),
            forall|id: Seq<char>|
                text@ == #[trigger] enc_server_id(id) ==> final(self).answers_view() == old(
                    self,
                ).answers_view() && final(self).offers_view() == old(self).offers_view() && (old(
                    self,
                ).id_view() is None ==> final(self).id_view() == Some(id)) && (old(
                    self,
                ).id_view() is Some ==> final(self).id_view() == old(self).id_view()),
            forall|f: Seq<char>, t: Seq<char>, s: Seq<char>|
                text@ == #[trigger] enc_server_offer(f, t, s) ==> final(self).offers_view() == old(
                    self,
                ).offers_view().push((f, t, s)) && final(self).answers_view() == old(
                    self,
                ).answers_view() && final(self).id_view() == old(self).id_view(),
            forall|f: Seq<char>, t: Seq<char>, s: Seq<char>|
                text@ == #[trigger] enc_server_answer(f, t, s) ==> final(self).answers_view()
                    == old(self).answers_view().insert(f, s) && final(self).offers_view() == old(
                    self,
                ).offers_view() && final(self).id_view() == old(self).id_view(),
    {
        match decode_server_message(text) {
            None => {
            },
            Some(m) => match m {
                ServerMessage::ID(i) => {
                    proof {
                        assert(text@ == enc_server_id(i.id@));
                        assert forall|f: Seq<char>, t: Seq<char>, s: Seq<char>|
                            text@ != #[trigger] enc_server_offer(f, t, s) by {
                            lemma_enc_server_kinds(f, t, s, f, t, s, i.id@);
                        }
                        assert forall|f: Seq<char>, t: Seq<char>, s: Seq<char>|
                            text@ != #[trigger] enc_server_answer(f, t, s) by {
                            lemma_enc_server_kinds(f, t, s, f, t, s, i.id@);
                        }
                        assert forall|id: Seq<char>|
                            text@ == #[trigger] enc_server_id(id) implies id == i.id@ by {
                            lemma_enc_server_id_unamb(id, i.id@);
                        }
                    }
                    if self.id.is_none() {
                        self.id = Some(i.id);
                    }
                },
                ServerMessage::Offer(o) => {
                    proof {
                        assert(text@ == enc_server_offer(o.from@, o.to@, o.sdp@));
                        lemma_enc_server_kinds(o.from@, o.to@, o.sdp@, o.from@, o.to@, o.sdp@, o.sdp@);
                        assert forall|id: Seq<char>| text@ != #[trigger] enc_server_id(id) by {
                            lemma_enc_server_kinds(o.from@, o.to@, o.sdp@, o.from@, o.to@, o.sdp@, id);
                        }
                        assert forall|f: Seq<char>, t: Seq<char>, s: Seq<char>|
                            text@ != #[trigger] enc_server_answer(f, t, s) by {
                            lemma_enc_server_kinds(o.from@, o.to@, o.sdp@, f, t, s, o.sdp@);
                        }
                        assert forall|f: Seq<char>, t: Seq<char>, s: Seq<char>|
                            text@ == #[trigger] enc_server_offer(f, t, s) implies f == o.from@ && t
                            == o.to@ && s == o.sdp@ by {
                            lemma_enc_server_offer_unamb(f, t, s, o.from@, o.to@, o.sdp@);
                        }
                    }
                    self.offers.push(o);
                    proof {
                        assert(final(self).offers_view() =~= old(self).offers_view().push(
                            (o.from@, o.to@, o.sdp@),
                        ));
                    }
                },
                ServerMessage::Answer(a) => {
                    proof {
                        assert(text@ == enc_server_answer(a.from@, a.to@, a.sdp@));
                        lemma_enc_server_kinds(a.from@, a.to@, a.sdp@, a.from@, a.to@, a.sdp@, a.sdp@);
                        assert forall|id: Seq<char>| text@ != #[trigger] enc_server_id(id) by {
                            lemma_enc_server_kinds(a.from@, a.to@, a.sdp@, a.from@, a.to@, a.sdp@, id);
                        }
                        assert forall|f: Seq<char>, t: Seq<char>, s: Seq<char>|
                            text@ != #[trigger] enc_server_offer(f, t, s) by {
                            lemma_enc_server_kinds(f, t, s, a.from@, a.to@, a.sdp@, a.sdp@);
                        }
                        assert forall|f: Seq<char>, t: Seq<char>, s: Seq<char>|
                            text@ == #[trigger] enc_server_answer(f, t, s) implies f == a.from@ && t
                            == a.to@ && s == a.sdp@ by {
                            lemma_enc_server_answer_unamb(f, t, s, a.from@, a.to@, a.sdp@);
                        }
                    }
                    self.answers.insert(a.from, a.sdp);
                    proof {
                        assert(final(self).answers_view() =~= old(self).answers_view().insert(
                            a.from@,
                            a.sdp@,
                        ));
                    }
                },
            },
        }
    }

    /// Takes the stored answer from `peer_id`, if one has arrived.
    /// Other peers' answers, the offers and the identifier are kept.
    pub fn receive_answer_from(&mut self, peer_id: &str) -> (r: Option<String>)
        requires
            old(self).wf(),
        ensures
            final(self).wf(),
            final(self).id_view() == old(self).id_view(),
            final(self).offers_view() == old(self).offers_view(),
            match r {
                Some(sdp) => old(self).answers_view().contains_key(peer_id@) && sdp@ == old(
                    self,
                ).answers_view()[peer_id@] && final(self).answers_view() == old(
                    self,
                ).answers_view().remove(peer_id@),
                None => !old(self).answers_view().contains_key(peer_id@) && *final(self) == *old(
                    self,
                ),
            },
    {
        let r = self.answers.remove(peer_id);
        proof {
            if r is Some {
                assert(final(self).answers_view() =~= old(self).answers_view().remove(peer_id@));
            }
        }
        r
    }

    /// Takes the next queued offer, if any: the queue is first-in,
    /// first-out, so the oldest offer comes out first and the younger
    /// ones stay buffered in order.
    pub fn receive_offer(&mut self) -> (r: Option<ServerOffer>)
        requires
            old(self).wf(),
        ensures
            final(self).wf(),
            final(self).id_view() == old(self).id_view(),
            final(self).answers_view() == old(self).answers_view(),
            match r {
                Some(o) => old(self).offers_view().len() > 0 && (o.from@, o.to@, o.sdp@) == old(
                    self,
                ).offers_view().first() && final(self).offers_view() == old(
                    self,
                ).offers_view().skip(1),
                None => old(self).offers_view().len() == 0 && *final(self) == *old(self),
            },
    {
        if self.offers.len() == 0 {
            None
        } else {
            let o = self.offers.remove(0);
            proof {
                let pre = old(self).offers@;
                assert(old(self).offers_view().len() == pre.len());
                assert(old(self).offers_view().first() == (
                    pre.first().from@,
                    pre.first().to@,
                    pre.first().sdp@,
                ));
                assert(final(self).offers_view() =~= old(self).offers_view().skip(1));
            }
            Some(o)
        }
    }
}

} // verus!
