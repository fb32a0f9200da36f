//! The four signaling message kinds exchanged between endpoints and the
//! relay, in both directions.
//!
//! Endpoints address each other by relay-assigned identifier: a client
//! sends `Offer{to, sdp}` / `Answer{to, sdp}`, and the relay rewrites
//! them into `Offer{from, to, sdp}` / `Answer{from, to, sdp}` before
//! forwarding, where `from` is the sender's relay-assigned identifier.
//! `GetMyID` asks the relay for the sender's own identifier; `ID{id}` is
//! the reply.

use vstd::prelude::*;

verus! {

/// An offer as a client submits it to the relay: destination and descriptor.
#[derive(Debug, PartialEq, Eq)]
pub struct ClientOffer {
    pub to: String,
    pub sdp: String,
}

/// An answer as a client submits it to the relay: destination and descriptor.
#[derive(Debug, PartialEq, Eq)]
pub struct ClientAnswer {
    pub to: String,
    pub sdp: String,
}

/// Every message a client can send to the relay.
#[derive(Debug, PartialEq, Eq)]
pub enum ClientMessage {
    Answer(ClientAnswer),
    Offer(ClientOffer),
    GetMyID,
}

/// An offer as the relay forwards it: the sender identifier is stamped in.
#[derive(Debug, PartialEq, Eq)]
pub struct ServerOffer {
    pub from: String,
    pub to: String,
    pub sdp: String,
}

/// An answer as the relay forwards it: the sender identifier is stamped in.
#[derive(Debug, PartialEq, Eq)]
pub struct ServerAnswer {
    pub from: String,
    pub to: String,
    pub sdp: String,
}

/// The relay's reply to `GetMyID`.
#[derive(Debug, PartialEq, Eq)]
pub struct ID {
    pub id: String,
}

/// Every message the relay can send to a client.
#[derive(Debug, PartialEq, Eq)]
pub enum ServerMessage {
    Answer(ServerAnswer),
    Offer(ServerOffer),
    ID(ID),
}

} // verus!

