//! The connection registry and the decisions of the readiness loop: which
//! event goes where, and what each dispatch leaves behind.
use vstd::prelude::*;
use std::collections::HashMap;
use crate::connection::{Interest, ProtocolError, WebSocketClient, read_post, write_post, drain};
use crate::handler::MessageHandler;
use crate::http::{header_lookup, headers_view};
use vstd::string::StringSliceAdditionalSpecFns;

verus! {

broadcast use vstd::std_specs::hash::group_hash_axioms;

/// The identifier of the listening socket; connections get the ones above it.
pub const SERVER: u64 = 0;

/// What the multiplexer signalled for one identifier.
#[derive(Clone, Copy, Debug, PartialEq, Eq, Structural)]
pub struct Readiness {
    pub readable: bool,
    pub writable: bool,
    pub hup: bool,
}

/// What the loop is to do with an event.
#[derive(Clone, Copy, Debug, PartialEq, Eq, Structural)]
pub enum Dispatch {
    /// Accept connections until the listener would block.
    Accept,
    /// The connection hung up and is gone from the registry.
    HungUp,
    /// Read what the socket holds and hand it to `on_readable`.
    Read,
    /// Call `on_writable` and send what it gives.
    Write,
    /// Nothing to do: an identifier that is not (or no longer) registered.
    Ignore,
}

/// What a read dispatch left behind.
#[derive(Clone, Copy, Debug, PartialEq, Eq, Structural)]
pub enum ReadOutcome {
    /// Re-arm the registration with this interest.
    Rearm(Interest),
    /// The connection failed and is gone from the registry.
    Dropped,
    /// No connection has this identifier.
    Unknown,
}

/// What a write dispatch left behind.
#[derive(Debug)]
pub enum WriteOutcome {
    /// Send these bytes, then re-arm the registration with this interest.
    Send(Vec<u8>, Interest),
    /// The connection failed and is gone from the registry.
    Dropped,
    /// No connection has this identifier.
    Unknown,
}

/// The live connections, keyed by identifiers from a counter that only grows.
pub struct WebSocketServer {
    pub clients: HashMap<u64, WebSocketClient>,
    pub token_counter: u64,
}

impl WebSocketServer {
    /// Every identifier in use was handed out by the counter, and every
    /// connection is well formed.
    pub open spec fn wf(&self) -> bool {
        forall|t: u64|
            #[trigger] self.clients@.contains_key(t) ==> 0 < t <= self.token_counter
                && self.clients@[t].wf()
    }

    /// An empty registry.
    pub fn new() -> (r: WebSocketServer)
        ensures
            r.wf(),
            r.clients@ == Map::<u64, WebSocketClient>::empty(),
            r.token_counter == 0,
    {
        WebSocketServer { clients: HashMap::new(), token_counter: 0 }
    }

    /// Registers a connection that was just accepted, under a new
    /// identifier; `None` once the identifiers are used up.
    pub fn accept(&mut self) -> (r: Option<u64>)
        requires
            old(self).wf(),
        ensures
            final(self).wf(),
            match r {
                None => old(self).token_counter == u64::MAX && *final(self) == *old(self),
                Some(t) => {
                    &&& old(self).token_counter < u64::MAX
                    &&& t == old(self).token_counter + 1
                    &&& final(self).token_counter == t
                    &&& !old(self).clients@.contains_key(t)
                    &&& final(self).clients@.contains_key(t)
                    &&& final(self).clients@.remove(t) == old(self).clients@
                    &&& fresh(final(self).clients@[t])
                },
            },
    {
        if self.token_counter == u64::MAX {
            return None;
        }
        self.token_counter = self.token_counter + 1;
        let t = self.token_counter;
        self.clients.insert(t, WebSocketClient::new());
        assert(self.clients@.remove(t) =~= old(self).clients@);
        Some(t)
    }

    /// Decides what an event calls for. A hang-up takes the connection out
    /// of the registry at once and outranks the other signals; an event for
    /// an identifier that is not registered changes nothing.
    pub fn dispatch(&mut self, token: u64, ready: Readiness) -> (r: Dispatch)
        requires
            old(self).wf(),
        ensures
            final(self).wf(),
            final(self).token_counter == old(self).token_counter,
            if token == SERVER {
                &&& r == if ready.readable {
                    Dispatch::Accept
                } else {
                    Dispatch::Ignore
                }
                &&& final(self).clients@ == old(self).clients@
            } else if !old(self).clients@.contains_key(token) {
                r == Dispatch::Ignore && final(self).clients@ == old(self).clients@
            } else if ready.hup {
                &&& r == Dispatch::HungUp
                &&& final(self).clients@ == old(self).clients@.remove(token)
                &&& final(self).clients@.dom().len() + 1 == old(self).clients@.dom().len()
            } else {
                &&& r == if ready.readable {
                    Dispatch::Read
                } else if ready.writable {
                    Dispatch::Write
                } else {
                    Dispatch::Ignore
                }
                &&& final(self).clients@ == old(self).clients@
            },
    {
        if token == SERVER {
            proof {
                assert(!self.clients@.contains_key(token));
            }
            return if ready.readable {
                Dispatch::Accept
            } else {
                Dispatch::Ignore
            };
        }
        if !self.clients.contains_key(&token) {
            return Dispatch::Ignore;
        }
        if ready.hup {
            proof {
                self.clients@.lemma_remove_key_len(token);
            }
            self.clients.remove(&token);
            return Dispatch::HungUp;
        }
        if ready.readable {
            Dispatch::Read
        } else if ready.writable {
            Dispatch::Write
        } else {
            Dispatch::Ignore
        }
    }

    /// Hands the bytes read from a connection to it. A connection that
    /// fails on them leaves the registry; the others stay, to be re-armed
    /// with their new interest.
    pub fn on_readable<H: MessageHandler>(&mut self, token: u64, data: &[u8], h: &H) -> (r: ReadOutcome)
        requires
            old(self).wf(),
        ensures
            final(self).wf(),
            final(self).token_counter == old(self).token_counter,
            if !old(self).clients@.contains_key(token) {
                r == ReadOutcome::Unknown && final(self).clients@ == old(self).clients@
            } else {
                let c = old(self).clients@[token];
                if c.state is Connected && drain(*h, c.inbound@ + data@).2 {
                    r == ReadOutcome::Dropped && final(self).clients@ == old(self).clients@.remove(token)
                } else {
                    &&& final(self).clients@.contains_key(token)
                    &&& final(self).clients@.remove(token) == old(self).clients@.remove(token)
                    &&& read_post(*h, c, data@, final(self).clients@[token], Ok(()))
                    &&& r == ReadOutcome::Rearm(final(self).clients@[token].interest)
                }
            },
    {
        match self.clients.remove(&token) {
            None => ReadOutcome::Unknown,
            Some(mut c) => {
                match c.read(data, h) {
                    Ok(()) => {
                        let interest = c.interest;
                        self.clients.insert(token, c);
                        assert(self.clients@.remove(token) =~= old(self).clients@.remove(token));
                        ReadOutcome::Rearm(interest)
                    },
                    Err(_) => ReadOutcome::Dropped,
                }
            },
        }
    }

    /// Lets a connection write what waits. A connection that fails leaves
    /// the registry; the others stay, to be re-armed with their new interest
    /// once the bytes are sent.
    pub fn on_writable(&mut self, token: u64) -> (r: WriteOutcome)
        requires
            old(self).wf(),
        ensures
            final(self).wf(),
            final(self).token_counter == old(self).token_counter,
            if !old(self).clients@.contains_key(token) {
                r is Unknown && final(self).clients@ == old(self).clients@
            } else {
                let c = old(self).clients@[token];
                if c.state is HandshakeResponse && header_lookup(
                    headers_view(c.headers@),
                    crate::connection::KEY_HEADER.spec_bytes(),
                ) is None {
                    r is Dropped && final(self).clients@ == old(self).clients@.remove(token)
                } else {
                    &&& final(self).clients@.contains_key(token)
                    &&& final(self).clients@.remove(token) == old(self).clients@.remove(token)
                    &&& r matches WriteOutcome::Send(b, i) && write_post(
                        c,
                        final(self).clients@[token],
                        Ok::<Vec<u8>, ProtocolError>(b),
                    ) && i == final(self).clients@[token].interest
                }
            },
    {
        match self.clients.remove(&token) {
            None => WriteOutcome::Unknown,
            Some(mut c) => {
                match c.write() {
                    Ok(bytes) => {
                        let interest = c.interest;
                        self.clients.insert(token, c);
                        assert(self.clients@.remove(token) =~= old(self).clients@.remove(token));
                        WriteOutcome::Send(bytes, interest)
                    },
                    Err(_) => WriteOutcome::Dropped,
                }
            },
        }
    }
}

/// A connection as `WebSocketClient::new` makes it.
pub open spec fn fresh(c: WebSocketClient) -> bool {
    &&& c.wf()
    &&& c.state matches crate::connection::ClientState::AwaitingHandshake(p) && p@
        == crate::http::initial_parser()
    &&& c.interest == crate::connection::read_interest()
    &&& c.headers@.len() == 0
    &&& c.outgoing@.len() == 0
    &&& c.inbound@.len() == 0
}

} // verus!
