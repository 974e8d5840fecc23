//! The relay session between the game server and the game client: the
//! session-key handshake, then the fixed relay cadence of two chunks from the
//! client to the server followed by two chunks from the server to the client.
use vstd::prelude::*;
use crate::channel::{ChannelState, StreamWrapper, after_read, after_write, read_result, result_view, write_result};
use crate::cipher::transform_spec;
use crate::error::ProxyError;
use crate::hook::{Hook, run_hooks};

verus! {

/// Length of the session key that the server sends in the clear.
pub const SESSION_KEY_LEN: usize = 16;

/// One end of the session.
#[derive(Debug, Clone, Copy, PartialEq, Eq, Structural)]
pub enum Side {
    Server,
    Client,
}

/// The end to read from at step `phase` of the cadence: the client for the
/// length prefix and the payload of a request, then the server for those of
/// its response.
pub open spec fn source_of(phase: nat) -> Side {
    if phase < 2 {
        Side::Client
    } else {
        Side::Server
    }
}

/// The step of the cadence after `phase`: four steps make one round.
pub open spec fn next_phase(phase: nat) -> nat {
    if phase >= 3 {
        0
    } else {
        phase + 1
    }
}

/// What relaying `raw`, read on `from`, gives on the wire of `to`: the bytes
/// decrypted on `from`, then hooked and encrypted on `to`.
pub open spec fn relay_result<H: Hook>(from: ChannelState<H>, to: ChannelState<H>, raw: Seq<u8>) -> Result<
    Seq<u8>,
    ProxyError,
> {
    match read_result(from, raw) {
        Ok(plain) => write_result(to, plain),
        Err(e) => Err(e),
    }
}

/// One relay step takes the reading channel from `from0` to `from1` and the
/// writing channel from `to0` to `to1`, with outcome `r`. Each channel moves
/// by what crossed it; a failed read moves neither.
pub open spec fn relay_step<H: Hook>(
    from0: ChannelState<H>,
    to0: ChannelState<H>,
    from1: ChannelState<H>,
    to1: ChannelState<H>,
    raw: Seq<u8>,
    r: Result<Seq<u8>, ProxyError>,
) -> bool {
    let plain = transform_spec(raw, from0.read_offset as int, from0.static_key, from0.session_key);
    &&& r == relay_result(from0, to0, raw)
    &&& from1 == (if read_result(from0, raw) is Ok { after_read(from0, raw.len()) } else { from0 })
    &&& to1 == (if r is Ok { after_write(to0, run_hooks(to0.hooks, plain).len()) } else { to0 })
}

/// The two channels of one proxied connection, sharing the same keys.
pub struct MitmClient<H> {
    pub server: StreamWrapper<H>,
    pub client: StreamWrapper<H>,
    /// The session key as the server sent it.
    pub session_key: Vec<u8>,
    /// Position in the relay cadence; see `source_of`.
    pub step: u8,
}

impl<H: Hook> MitmClient<H> {
    /// Position in the relay cadence.
    pub open spec fn phase(&self) -> nat {
        self.step as nat
    }

    /// The session key received from the server.
    pub open spec fn session_key_spec(&self) -> Seq<u8> {
        self.session_key@
    }

    pub open spec fn wf(&self) -> bool {
        &&& self.server.wf()
        &&& self.client.wf()
    }

    /// Sets up the session from the static key and from `server_hello`, the
    /// bytes of the server's first read. That read must hold exactly the
    /// session key, and the static key must not be empty; otherwise the
    /// handshake fails. Both channels start at stream position 0, with the
    /// same two keys and no hooks.
    pub fn new(cipher_key: &[u8], server_hello: &[u8]) -> (r: Result<Self, ProxyError>)
        ensures
            r is Err <==> server_hello@.len() != SESSION_KEY_LEN || cipher_key@.len() == 0,
            r is Err ==> r == Err::<Self, ProxyError>(ProxyError::HandshakeError),
            r matches Ok(m) ==> {
                let fresh = ChannelState::<H> {
                    read_offset: 0,
                    write_offset: 0,
                    static_key: cipher_key@,
                    session_key: server_hello@,
                    hooks: Seq::empty(),
                };
                &&& m.wf()
                &&& m.phase() == 0
                &&& m.session_key_spec() == server_hello@
                &&& m.server@ == fresh
                &&& m.client@ == fresh
            },
    {
        if server_hello.len() != SESSION_KEY_LEN || cipher_key.len() == 0 {
            return Err(ProxyError::HandshakeError);
        }
        let server = StreamWrapper::new(
            vstd::slice::slice_to_vec(cipher_key),
            vstd::slice::slice_to_vec(server_hello),
        );
        let client = StreamWrapper::new(
            vstd::slice::slice_to_vec(cipher_key),
            vstd::slice::slice_to_vec(server_hello),
        );
        Ok(MitmClient { server, client, session_key: vstd::slice::slice_to_vec(server_hello), step: 0 })
    }

    /// The bytes to forward to the client before any ciphered traffic: the
    /// session key exactly as the server sent it.
    pub fn session_key(&self) -> (r: Vec<u8>)
        ensures
            r@ == self.session_key_spec(),
    {
        self.session_key.clone()
    }

    /// The end whose next chunk the session relays.
    pub fn source(&self) -> (r: Side)
        ensures
            r == source_of(self.phase()),
    {
        if self.step < 2 {
            Side::Client
        } else {
            Side::Server
        }
    }

    /// Relays one chunk: `raw` is what one read on the end named by `source`
    /// returned. It is decrypted on that end's channel, run through the other
    /// end's hooks and encrypted on the other end's channel; the result is to
    /// be sent to the other end. No bytes means that the peer closed its
    /// stream, which ends the session with nothing changed.
    pub fn relay(&mut self, raw: &[u8]) -> (r: Result<Vec<u8>, ProxyError>)
        requires
            old(self).wf(),
        ensures
            final(self).wf(),
            final(self).session_key_spec() == old(self).session_key_spec(),
            source_of(old(self).phase()) == Side::Client ==> relay_step(
                old(self).client@,
                old(self).server@,
                final(self).client@,
                final(self).server@,
                raw@,
                result_view(r),
            ),
            source_of(old(self).phase()) == Side::Server ==> relay_step(
                old(self).server@,
                old(self).client@,
                final(self).server@,
                final(self).client@,
                raw@,
                result_view(r),
            ),
            final(self).phase() == (if r is Ok { next_phase(old(self).phase()) } else { old(self).phase() }),
            raw@.len() == 0 ==> r == Err::<Vec<u8>, ProxyError>(ProxyError::ConnectionClosed)
                && final(self).server@ == old(self).server@ && final(self).client@ == old(self).client@,
    {
        let from_client = self.step < 2;
        let read = if from_client {
            self.client.read(raw)
        } else {
            self.server.read(raw)
        };
        let plain = match read {
            Ok(p) => p,
            Err(e) => {
                return Err(e);
            },
        };
        let written = if from_client {
            self.server.write(plain)
        } else {
            self.client.write(plain)
        };
        match written {
            Ok(w) => {
                self.step = if self.step >= 3 { 0 } else { self.step + 1 };
                Ok(w)
            },
            Err(e) => Err(e),
        }
    }
}

} // verus!
