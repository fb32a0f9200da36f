//! An established peer-to-peer connection.
//!
//! Holds the remote identifier, the open data channel's handle, and a
//! buffer of inbound messages that the embedding program's channel
//! callback fills and [`P2PConnection::receive`] drains. Sending is
//! pure here too: [`P2PConnection::send`] names the channel to write
//! on and the payload; the embedding program performs the write.

use vstd::prelude::*;

verus! {

/// One open connection to one remote peer.
pub struct P2PConnection {
    id: String,
    channel: u64,
    messages: Vec<String>,
}

impl P2PConnection {
    /// The remote peer's identifier.
    pub closed spec fn id_view(&self) -> Seq<char> {
        self.id@
    }

    /// The open data channel's handle.
    pub closed spec fn channel_handle(&self) -> u64 {
        self.channel
    }

    /// The buffered inbound messages, oldest first.
    pub closed spec fn messages_view(&self) -> Seq<String> {
        self.messages@
    }

    /// Wraps a channel that has reached the open state.
    pub fn new(id: String, channel: u64) -> (r: P2PConnection)
        ensures
            r.id_view() == id@,
            r.channel_handle() == channel,
            r.messages_view() == Seq::<String>::empty(),
    {
        P2PConnection { id, channel, messages: Vec::new() }
    }

    /// The remote peer's identifier.
    pub fn id(&self) -> (r: String)
        ensures
            r@ == self.id_view(),
    {
        self.id.clone()
    }

    /// The channel to write `data` on, with the payload to write.
    pub fn send(&self, data: &str) -> (r: (u64, String))
        ensures
            r.0 == self.channel_handle(),
            r.1@ == data@,
    {
        (self.channel, data.to_owned())
    }

    /// Buffers one inbound message from the channel.
    pub fn push_message(&mut self, msg: String)
        ensures
            final(self).id_view() == old(self).id_view(),
            final(self).channel_handle() == old(self).channel_handle(),
            final(self).messages_view() == old(self).messages_view().push(msg),
    {
        self.messages.push(msg);
    }

    /// Takes every buffered message, in arrival order, leaving the
    /// buffer empty.
    pub fn receive(&mut self) -> (r: Vec<String>)
        ensures
            final(self).id_view() == old(self).id_view(),
            final(self).channel_handle() == old(self).channel_handle(),
            r@ == old(self).messages_view(),
            final(self).messages_view() == Seq::<String>::empty(),
    {
        let mut out: Vec<String> = Vec::new();
        core::mem::swap(&mut out, &mut self.messages);
        out
    }
}

} // verus!
