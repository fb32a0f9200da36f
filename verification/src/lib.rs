//! Rendezvous signaling for peer-to-peer data channels.
//!
//! Two endpoints that cannot reach each other directly exchange
//! session-negotiation messages through a relay. The relay assigns each
//! connection a fresh identifier and forwards offer/answer messages by
//! identifier, stamping the authoritative sender identifier into every
//! forwarded copy. Each endpoint runs a negotiation state machine that
//! turns the exchanged messages into an open data channel, and a
//! connection registry that buffers connect/disconnect transitions and
//! inbound application messages for a pull-based drain.
//!
//! The wire codec, the relay forwarding rules, the client-side signaling
//! state, the negotiation state machine and the registry are verified.
//! Transport primitives (descriptor generation, channel I/O) and socket
//! plumbing are left to the embedding program, which drives the state
//! machines with plain values.

pub mod codec;
pub mod ice_server;
pub mod messages;
pub mod negotiator;
pub mod p2p_connection;
pub mod registry;
pub mod signaling;
pub mod signaling_server;
pub mod table;
