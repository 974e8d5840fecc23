//! One direction-aware connection channel: the stream positions that drive the
//! cipher, the outgoing hook pipeline, and message framing. The socket itself
//! stays with the caller, which hands over the bytes read and sends the bytes
//! returned.
use vstd::prelude::*;
use crate::cipher::{lemma_transform_involutive, lemma_transform_split, transform, transform_spec};
use crate::error::ProxyError;
use crate::hook::{Hook, apply_hooks, run_hooks};

verus! {

/// Largest payload a 16-bit length prefix can describe.
pub const MAX_PAYLOAD: usize = 65535;

/// What a channel is, seen from outside.
pub struct ChannelState<H> {
    /// Bytes received so far, length prefixes included.
    pub read_offset: nat,
    /// Bytes sent so far, as they went on the wire after the hooks.
    pub write_offset: nat,
    pub static_key: Seq<u8>,
    pub session_key: Seq<u8>,
    /// Outgoing hooks in registration order.
    pub hooks: Seq<H>,
}

/// The state after `n` more bytes were received.
pub open spec fn after_read<H>(s: ChannelState<H>, n: nat) -> ChannelState<H> {
    ChannelState { read_offset: s.read_offset + n, ..s }
}

/// The state after `n` more bytes were sent.
pub open spec fn after_write<H>(s: ChannelState<H>, n: nat) -> ChannelState<H> {
    ChannelState { write_offset: s.write_offset + n, ..s }
}

/// A stream position of `offset` can move on by `n` bytes.
pub open spec fn fits(offset: nat, n: nat) -> bool {
    offset + n <= u64::MAX
}

/// The bytes of a result, or its error.
pub open spec fn result_view(r: Result<Vec<u8>, ProxyError>) -> Result<Seq<u8>, ProxyError> {
    match r {
        Ok(v) => Ok(v@),
        Err(e) => Err(e),
    }
}

/// What reading the raw bytes `raw` yields on a channel in state `s`: no
/// bytes means the peer closed the stream; otherwise the bytes decrypted at
/// the read position.
pub open spec fn read_result<H>(s: ChannelState<H>, raw: Seq<u8>) -> Result<Seq<u8>, ProxyError> {
    if raw.len() == 0 {
        Err(ProxyError::ConnectionClosed)
    } else if !fits(s.read_offset, raw.len()) {
        Err(ProxyError::OffsetOverflow)
    } else {
        Ok(transform_spec(raw, s.read_offset as int, s.static_key, s.session_key))
    }
}

/// What writing `msg` puts on the wire from a channel in state `s`: the
/// output of the hook pipeline, encrypted at the write position.
pub open spec fn write_result<H: Hook>(s: ChannelState<H>, msg: Seq<u8>) -> Result<Seq<u8>, ProxyError> {
    let hooked = run_hooks(s.hooks, msg);
    if !fits(s.write_offset, hooked.len()) {
        Err(ProxyError::OffsetOverflow)
    } else {
        Ok(transform_spec(hooked, s.write_offset as int, s.static_key, s.session_key))
    }
}

/// The two chunks that framing `payload` puts on the wire from state `s`:
/// the length prefix of the hooked payload, then the hooked payload, both
/// encrypted, the payload right after the prefix.
pub open spec fn send_result<H: Hook>(s: ChannelState<H>, payload: Seq<u8>) -> Result<
    (Seq<u8>, Seq<u8>),
    ProxyError,
> {
    let hooked = run_hooks(s.hooks, payload);
    if hooked.len() > MAX_PAYLOAD {
        Err(ProxyError::FramingError)
    } else if !fits(s.write_offset, hooked.len() + 2) {
        Err(ProxyError::OffsetOverflow)
    } else {
        Ok(
            (
                transform_spec(le_u16_spec(hooked.len()), s.write_offset as int, s.static_key, s.session_key),
                transform_spec(hooked, s.write_offset + 2int, s.static_key, s.session_key),
            ),
        )
    }
}

/// The bytes of a pair of chunks, or its error.
pub open spec fn chunks_view(r: Result<(Vec<u8>, Vec<u8>), ProxyError>) -> Result<(Seq<u8>, Seq<u8>), ProxyError> {
    match r {
        Ok((a, b)) => Ok((a@, b@)),
        Err(e) => Err(e),
    }
}

/// The two little-endian bytes of `n`.
pub open spec fn le_u16_spec(n: nat) -> Seq<u8> {
    seq![(n % 256) as u8, (n / 256) as u8]
}

/// The framed form of `payload`: its length prefix, then the payload itself.
pub open spec fn frame_spec(payload: Seq<u8>) -> Seq<u8> {
    le_u16_spec(payload.len()) + payload
}

/// Relies on byteorder's `LittleEndian::write_u16`: the low byte of `n`, then its high byte.
#[verifier::external_body]
fn le_u16_bytes(n: u16) -> (r: Vec<u8>)
    ensures
        r@ == le_u16_spec(n as nat),
{
    let mut buf: Vec<u8> = vec![0u8; 2];
    <byteorder::LittleEndian as byteorder::ByteOrder>::write_u16(&mut buf, n);
    buf
}

/// The plaintext stream of `payloads`, framed one after another.
pub open spec fn frames_concat(payloads: Seq<Seq<u8>>) -> Seq<u8>
    decreases payloads.len(),
{
    if payloads.len() == 0 {
        Seq::empty()
    } else {
        frames_concat(payloads.drop_last()) + frame_spec(payloads.last())
    }
}

/// What a sender whose write position is `offset` puts on the wire for
/// `payloads`: each frame encrypted at the position the frames before it
/// leave.
pub open spec fn sealed_frames(
    payloads: Seq<Seq<u8>>,
    offset: int,
    static_key: Seq<u8>,
    session_key: Seq<u8>,
) -> Seq<u8>
    decreases payloads.len(),
{
    if payloads.len() == 0 {
        Seq::empty()
    } else {
        let before = payloads.drop_last();
        sealed_frames(before, offset, static_key, session_key) + transform_spec(
            frame_spec(payloads.last()),
            offset + frames_concat(before).len(),
            static_key,
            session_key,
        )
    }
}

/// A sequence of frames sent from one write position and received from the
/// same read position, with the same keys, comes out as it went in; the wire
/// carries exactly as many bytes as the plaintext, so both positions move by
/// the same cumulative count.
pub proof fn lemma_frames_round_trip(
    payloads: Seq<Seq<u8>>,
    offset: int,
    static_key: Seq<u8>,
    session_key: Seq<u8>,
)
    ensures
        sealed_frames(payloads, offset, static_key, session_key).len() == frames_concat(payloads).len(),
        transform_spec(sealed_frames(payloads, offset, static_key, session_key), offset, static_key, session_key)
            == frames_concat(payloads),
    decreases payloads.len(),
{
    if payloads.len() == 0 {
        assert(transform_spec(Seq::empty(), offset, static_key, session_key) =~= Seq::<u8>::empty());
    } else {
        let before = payloads.drop_last();
        let at = offset + frames_concat(before).len();
        let frame = frame_spec(payloads.last());
        lemma_frames_round_trip(before, offset, static_key, session_key);
        lemma_transform_split(
            sealed_frames(before, offset, static_key, session_key),
            transform_spec(frame, at, static_key, session_key),
            offset,
            static_key,
            session_key,
        );
        lemma_transform_involutive(frame, at, static_key, session_key);
    }
}

/// What one channel writes, a peer channel with the same keys whose read
/// position equals the writer's write position reads back as the hooked
/// payload, and afterwards the two positions are still equal.
pub proof fn lemma_peer_reads_back<H: Hook>(writer: ChannelState<H>, reader: ChannelState<H>, msg: Seq<u8>)
    requires
        writer.static_key == reader.static_key,
        writer.session_key == reader.session_key,
        writer.write_offset == reader.read_offset,
        fits(writer.write_offset, run_hooks(writer.hooks, msg).len()),
        run_hooks(writer.hooks, msg).len() > 0,
    ensures
        write_result(writer, msg) is Ok,
        read_result(reader, write_result(writer, msg)->Ok_0) == Ok::<Seq<u8>, ProxyError>(
            run_hooks(writer.hooks, msg),
        ),
        after_write(writer, run_hooks(writer.hooks, msg).len()).write_offset == after_read(
            reader,
            write_result(writer, msg)->Ok_0.len(),
        ).read_offset,
{
    lemma_transform_involutive(run_hooks(writer.hooks, msg), writer.write_offset as int, writer.static_key, writer.session_key);
}

/// One connection's cipher state and outgoing hooks.
pub struct StreamWrapper<H> {
    read_offset: u64,
    write_offset: u64,
    cipher_key: Vec<u8>,
    secret_key: Vec<u8>,
    write_hooks: Vec<H>,
}

impl<H> View for StreamWrapper<H> {
    type V = ChannelState<H>;

    closed spec fn view(&self) -> ChannelState<H> {
        ChannelState {
            read_offset: self.read_offset as nat,
            write_offset: self.write_offset as nat,
            static_key: self.cipher_key@,
            session_key: self.secret_key@,
            hooks: self.write_hooks@,
        }
    }
}

impl<H: Hook> StreamWrapper<H> {
    /// Both keys are non-empty, so that every key position is defined.
    pub open spec fn wf(&self) -> bool {
        self@.static_key.len() > 0 && self@.session_key.len() > 0
    }

    /// A channel at the start of the stream, with no hooks.
    pub fn new(cipher_key: Vec<u8>, secret_key: Vec<u8>) -> (r: Self)
        requires
            cipher_key@.len() > 0,
            secret_key@.len() > 0,
        ensures
            r.wf(),
            r@ == (ChannelState::<H> {
                read_offset: 0,
                write_offset: 0,
                static_key: cipher_key@,
                session_key: secret_key@,
                hooks: Seq::empty(),
            }),
    {
        StreamWrapper { read_offset: 0, write_offset: 0, cipher_key, secret_key, write_hooks: Vec::new() }
    }

    /// Number of bytes received so far.
    pub fn read_offset(&self) -> (r: u64)
        ensures
            r == self@.read_offset,
    {
        self.read_offset
    }

    /// Number of bytes sent so far.
    pub fn write_offset(&self) -> (r: u64)
        ensures
            r == self@.write_offset,
    {
        self.write_offset
    }

    /// Appends `hook` to the outgoing pipeline.
    pub fn hook_write(&mut self, hook: H)
        ensures
            final(self)@ == (ChannelState { hooks: old(self)@.hooks.push(hook), ..old(self)@ }),
    {
        self.write_hooks.push(hook);
    }

    /// Decrypts `raw`, the bytes one socket read returned, at the current read
    /// position, and moves that position past them. No bytes means that the
    /// peer closed the stream.
    pub fn read(&mut self, raw: &[u8]) -> (r: Result<Vec<u8>, ProxyError>)
        requires
            old(self).wf(),
        ensures
            final(self).wf(),
            result_view(r) == read_result(old(self)@, raw@),
            final(self)@ == (if r is Ok { after_read(old(self)@, raw@.len()) } else { old(self)@ }),
    {
        if raw.len() == 0 {
            return Err(ProxyError::ConnectionClosed);
        }
        if raw.len() as u64 > u64::MAX - self.read_offset {
            return Err(ProxyError::OffsetOverflow);
        }
        let plain = transform(raw, self.read_offset, self.cipher_key.as_slice(), self.secret_key.as_slice());
        self.read_offset = self.read_offset + raw.len() as u64;
        Ok(plain)
    }

    /// Runs `msg` through the hooks, first registered first, encrypts the
    /// result at the current write position and moves that position past it.
    /// Returns the bytes to put on the wire.
    pub fn write(&mut self, msg: Vec<u8>) -> (r: Result<Vec<u8>, ProxyError>)
        requires
            old(self).wf(),
        ensures
            final(self).wf(),
            result_view(r) == write_result(old(self)@, msg@),
            final(self)@ == (if r is Ok {
                after_write(old(self)@, run_hooks(old(self)@.hooks, msg@).len())
            } else {
                old(self)@
            }),
    {
        let hooked = apply_hooks(&self.write_hooks, msg);
        if hooked.len() as u64 > u64::MAX - self.write_offset {
            return Err(ProxyError::OffsetOverflow);
        }
        let wire = transform(hooked.as_slice(), self.write_offset, self.cipher_key.as_slice(), self.secret_key.as_slice());
        self.write_offset = self.write_offset + hooked.len() as u64;
        Ok(wire)
    }

    /// Frames `payload` for the wire: runs it through the hooks, then returns
    /// the encrypted 2-byte little-endian length of the hooked payload and the
    /// encrypted hooked payload, to be sent in that order. A hooked payload
    /// longer than a 16-bit prefix can describe is refused.
    pub fn send_message(&mut self, payload: Vec<u8>) -> (r: Result<(Vec<u8>, Vec<u8>), ProxyError>)
        requires
            old(self).wf(),
        ensures
            final(self).wf(),
            chunks_view(r) == send_result(old(self)@, payload@),
            r matches Ok((head, body)) ==> head@ + body@ == transform_spec(
                frame_spec(run_hooks(old(self)@.hooks, payload@)),
                old(self)@.write_offset as int,
                old(self)@.static_key,
                old(self)@.session_key,
            ),
            final(self)@ == (if r is Ok {
                after_write(old(self)@, run_hooks(old(self)@.hooks, payload@).len() + 2)
            } else {
                old(self)@
            }),
    {
        let hooked = apply_hooks(&self.write_hooks, payload);
        if hooked.len() > MAX_PAYLOAD {
            return Err(ProxyError::FramingError);
        }
        if hooked.len() as u64 + 2 > u64::MAX - self.write_offset {
            return Err(ProxyError::OffsetOverflow);
        }
        let prefix = le_u16_bytes(hooked.len() as u16);
        let head = transform(prefix.as_slice(), self.write_offset, self.cipher_key.as_slice(), self.secret_key.as_slice());
        let body = transform(hooked.as_slice(), self.write_offset + 2, self.cipher_key.as_slice(), self.secret_key.as_slice());
        proof {
            lemma_transform_split(prefix@, hooked@, self.write_offset as int, self.cipher_key@, self.secret_key@);
        }
        self.write_offset = self.write_offset + hooked.len() as u64 + 2;
        Ok((head, body))
    }
}

} // verus!
