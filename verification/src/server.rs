//! The connection registry: a token-indexed arena of connections owned by
//! the reactor loop.  The listening socket and the poll primitive stay with
//! the caller, which routes each readiness event to the methods here and
//! re-arms the poll registration with the connection's current interest.

use vstd::prelude::*;

use crate::client::{
    read_handshake_step, read_step, record_header_step, write_result, write_step, ClientState,
    HandshakeError, Interest, WebSocketClient,
};

verus! {

/// The registry.  The token of the listening socket is 0; client tokens
/// start at 2 (the counter is seeded with 1 and incremented before use) and
/// token `t` lives at arena slot `t - 2`.  Connections are never evicted.
pub struct WebSocketServer {
    pub clients: Vec<WebSocketClient>,
    pub token_counter: usize,
}

impl WebSocketServer {
    /// The counter always equals the next token to hand out minus one, and
    /// every held connection is well formed.
    pub open spec fn wf(self) -> bool {
        &&& self.token_counter == self.clients@.len() + 1
        &&& forall|i: int| 0 <= i < self.clients@.len() ==> (#[trigger] self.clients@[i])@.wf()
    }

    /// Does `token` name a live connection?
    pub open spec fn has_token(self, token: usize) -> bool {
        2 <= token && token - 2 < self.clients@.len()
    }

    /// An empty registry; the counter is seeded with 1 as token 0 names the
    /// listening socket.
    pub fn new() -> (s: WebSocketServer)
        ensures
            s.clients@.len() == 0,
            s.token_counter == 1,
            s.wf(),
    {
        WebSocketServer { clients: Vec::new(), token_counter: 1 }
    }

    /// Admit one accepted connection: allocate a fresh token and store a
    /// fresh `AwaitingHandshake` connection under it.
    pub fn accept_client(&mut self) -> (token: usize)
        requires
            old(self).wf(),
            old(self).token_counter < usize::MAX,
        ensures
            final(self).wf(),
            final(self).token_counter == old(self).token_counter + 1,
            token == final(self).token_counter,
            final(self).has_token(token),
            final(self).clients@.len() == old(self).clients@.len() + 1,
            final(self).clients@[token - 2]@ == crate::client::new_client_model(),
            forall|j: int|
                0 <= j < old(self).clients@.len() ==> final(self).clients@[j] == old(
                    self,
                ).clients@[j],
    {
        self.token_counter = self.token_counter + 1;
        let c = WebSocketClient::new();
        self.clients.push(c);
        self.token_counter
    }

    /// Does `token` name a live connection?
    pub fn has_client(&self, token: usize) -> (r: bool)
        ensures
            r == self.has_token(token),
    {
        2 <= token && token - 2 < self.clients.len()
    }

    /// The interest set the connection under `token` currently declares.
    pub fn client_interest(&self, token: usize) -> (r: Interest)
        requires
            self.has_token(token),
        ensures
            r == self.clients@[token - 2]@.interest,
    {
        self.clients[token - 2].interest
    }

    /// The phase the connection under `token` is currently in.
    pub fn client_state(&self, token: usize) -> (r: ClientState)
        requires
            self.has_token(token),
        ensures
            r == self.clients@[token - 2]@.state,
    {
        self.clients[token - 2].state
    }

    /// Record one header pair for the connection under `token`.
    pub fn record_header(&mut self, token: usize, name: Vec<u8>, value: Vec<u8>)
        requires
            old(self).has_token(token),
        ensures
            final(self).clients@.len() == old(self).clients@.len(),
            final(self).token_counter == old(self).token_counter,
            final(self).clients@[token - 2]@ == record_header_step(
                old(self).clients@[token - 2]@,
                name@,
                value@,
            ),
            forall|j: int|
                0 <= j < old(self).clients@.len() && j != token - 2 ==> final(self).clients@[j]
                    == old(self).clients@[j],
            old(self).wf() ==> final(self).wf(),
    {
        let idx = token - 2;
        let mut c = self.clients.remove(idx);
        c.record_header(name, value);
        self.clients.insert(idx, c);
        proof {
            assert(self.clients@ =~= old(self).clients@.update(idx as int, c));
        }
    }

    /// Route the read-path handshake decision to the connection under
    /// `token`.
    pub fn read_handshake(&mut self, token: usize, is_upgrade: bool)
        requires
            old(self).has_token(token),
        ensures
            final(self).clients@.len() == old(self).clients@.len(),
            final(self).token_counter == old(self).token_counter,
            final(self).clients@[token - 2]@ == read_handshake_step(
                old(self).clients@[token - 2]@,
                is_upgrade,
            ),
            forall|j: int|
                0 <= j < old(self).clients@.len() && j != token - 2 ==> final(self).clients@[j]
                    == old(self).clients@[j],
            old(self).wf() ==> final(self).wf(),
    {
        let idx = token - 2;
        let mut c = self.clients.remove(idx);
        c.read_handshake(is_upgrade);
        self.clients.insert(idx, c);
        proof {
            assert(self.clients@ =~= old(self).clients@.update(idx as int, c));
        }
    }

    /// Route one buffer of frame bytes to the connection under `token`.
    pub fn read(&mut self, token: usize, input: &[u8])
        requires
            old(self).has_token(token),
        ensures
            final(self).clients@.len() == old(self).clients@.len(),
            final(self).token_counter == old(self).token_counter,
            final(self).clients@[token - 2]@ == read_step(
                old(self).clients@[token - 2]@,
                input@,
            ),
            forall|j: int|
                0 <= j < old(self).clients@.len() && j != token - 2 ==> final(self).clients@[j]
                    == old(self).clients@[j],
            old(self).wf() ==> final(self).wf(),
    {
        let idx = token - 2;
        let mut c = self.clients.remove(idx);
        c.read(input);
        self.clients.insert(idx, c);
        proof {
            assert(self.clients@ =~= old(self).clients@.update(idx as int, c));
        }
    }

    /// Route a write-readiness turn to the connection under `token` and
    /// hand back the bytes it wants on the wire.
    pub fn write(&mut self, token: usize) -> (r: Result<Vec<u8>, HandshakeError>)
        requires
            old(self).wf(),
            old(self).has_token(token),
        ensures
            final(self).wf(),
            final(self).clients@.len() == old(self).clients@.len(),
            final(self).token_counter == old(self).token_counter,
            final(self).clients@[token - 2]@ == write_step(old(self).clients@[token - 2]@),
            (r matches Ok(v) ==> write_result(old(self).clients@[token - 2]@) == Ok::<
                Seq<u8>,
                HandshakeError,
            >(v@)),
            (r matches Err(e) ==> write_result(old(self).clients@[token - 2]@) == Err::<
                Seq<u8>,
                HandshakeError,
            >(e)),
            forall|j: int|
                0 <= j < old(self).clients@.len() && j != token - 2 ==> final(self).clients@[j]
                    == old(self).clients@[j],
    {
        let idx = token - 2;
        let mut c = self.clients.remove(idx);
        let r = c.write();
        self.clients.insert(idx, c);
        proof {
            assert(self.clients@ =~= old(self).clients@.update(idx as int, c));
        }
        r
    }
}

} // verus!
