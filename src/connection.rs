//! The connection engine without its socket: an inbound buffer that is cut
//! into frames, an outbound buffer that frames are queued on, and the
//! compression and encryption toggles. Whoever owns the socket hands received
//! bytes to `ingest` and drains `pending_output`.
use vstd::prelude::*;

use crate::bindings::{
    cfb8_stream, crypter_encrypts, crypter_fed, crypter_is_cfb8, crypter_key, zlib_compressed,
    zlib_decompressed,
    buf_consume, buf_contents, buf_extend, buf_len, buf_new, buf_prefix, crypter_new,
    crypter_update,
};
use crate::error::{reason, ProtoError};
use crate::frame::{frame_bytes, frame_packet, parse_frame, FrameParse, MAX_FRAME_LEN};
use crate::read::read_leb;
use crate::reader::Reader;
use crate::wire::leb_len;
use crate::clientbound::ClientboundPacket;
use crate::serverbound::ServerboundPacket;
use crate::ClientState;

verus! {

/// The largest number of received bytes `ingest` takes at once on an
/// encrypted connection.
pub const MAX_CHUNK_LEN: usize = 0x7fff_0000;

/// The next stretch of a cipher stream: what `input` turns into after `fed`
/// went through the same cipher.
pub open spec fn stream_next(key: Seq<u8>, encrypt: bool, fed: Seq<u8>, input: Seq<u8>) -> Seq<u8> {
    cfb8_stream(key, encrypt, fed + input).skip(fed.len() as int)
}

/// What queuing the frame `f` on `c` adds to its outbound bytes: the frame
/// itself, or its ciphertext once encryption is on.
pub open spec fn sealed(c: Connection, f: Seq<u8>) -> Seq<u8> {
    match c.cipher_view() {
        Some(v) => stream_next(v.0, v.1, v.2, f),
        None => f,
    }
}

/// The ciphers of `c` after the frame `f` went out.
pub open spec fn sealed_view(c: Connection, f: Seq<u8>) -> Option<
    (Seq<u8>, bool, Seq<u8>, Seq<u8>, bool, Seq<u8>),
> {
    match c.cipher_view() {
        Some(v) => Some((v.0, v.1, v.2 + f, v.3, v.4, v.5)),
        None => None,
    }
}

/// What the packet enums of both directions offer.
pub trait Packet: Sized {
    /// Decode a packet, identifier and fields, that arrived in `state`.
    fn deserialize(data: &[u8], state: ClientState) -> Result<Self, ProtoError>;

    /// The packet's name.
    fn get_packet_name(&self) -> &'static str;

    /// The state in which the packet travels.
    fn get_clientstate(&self) -> ClientState;

    /// The packet's identifier.
    fn get_id(&self) -> i32;

    /// Encode the packet, identifier and fields.
    fn to_u8(&self) -> Result<Vec<u8>, ProtoError>;
}

impl Packet for ClientboundPacket {
    fn deserialize(data: &[u8], state: ClientState) -> Result<Self, ProtoError> {
        ClientboundPacket::deserialize(data, state)
    }

    fn get_packet_name(&self) -> &'static str {
        ClientboundPacket::get_packet_name(self)
    }

    fn get_clientstate(&self) -> ClientState {
        ClientboundPacket::get_clientstate(self)
    }

    fn get_id(&self) -> i32 {
        ClientboundPacket::get_id(self)
    }

    fn to_u8(&self) -> Result<Vec<u8>, ProtoError> {
        ClientboundPacket::to_u8(self)
    }
}

impl Packet for ServerboundPacket {
    fn deserialize(data: &[u8], state: ClientState) -> Result<Self, ProtoError> {
        ServerboundPacket::deserialize(data, state)
    }

    fn get_packet_name(&self) -> &'static str {
        ServerboundPacket::get_packet_name(self)
    }

    fn get_clientstate(&self) -> ClientState {
        ServerboundPacket::get_clientstate(self)
    }

    fn get_id(&self) -> i32 {
        ServerboundPacket::get_id(self)
    }

    fn to_u8(&self) -> Result<Vec<u8>, ProtoError> {
        ServerboundPacket::to_u8(self)
    }
}

/// One peer's side of a connection.
pub struct Connection {
    state: ClientState,
    /* Received bytes; a frame's length header stays here until the whole
     * frame has arrived, and then leaves together with the frame. */
    inbuf: netbuf::Buf,
    compression: Option<usize>,
    outbuf: netbuf::Buf,
    /* Once encryption is on: the outbound cipher, then the inbound one. */
    ciphers: Option<(openssl::symm::Crypter, openssl::symm::Crypter)>,
    closed: bool,
}

proof fn lemma_leb_len_take(s: Seq<u8>, k: nat, max: nat)
    requires
        k <= s.len(),
        k >= max || k == s.len(),
    ensures
        leb_len(s.take(k as int), max) == leb_len(s, max),
    decreases max,
{
    let t = s.take(k as int);
    if max > 0 && s.len() > 0 && k > 0 {
        assert(t[0] == s[0]);
        if s[0] >= 128 {
            assert(t.drop_first() =~= s.drop_first().take(k - 1));
            lemma_leb_len_take(s.drop_first(), (k - 1) as nat, (max - 1) as nat);
        }
    }
}

pub(crate) proof fn lemma_leb_len_bound(s: Seq<u8>, max: nat)
    ensures
        leb_len(s, max) is Some ==> 1 <= leb_len(s, max).unwrap() <= s.len()
            && leb_len(s, max).unwrap() <= max,
    decreases s.len(),
{
    if max > 0 && s.len() > 0 && s[0] >= 128 {
        lemma_leb_len_bound(s.drop_first(), (max - 1) as nat);
    }
}

impl Connection {
    /// The received bytes not yet handed out as frames.
    pub closed spec fn unread(&self) -> Seq<u8> {
        buf_contents(self.inbuf)
    }

    /// The bytes queued for the peer and not yet written.
    pub closed spec fn pending(&self) -> Seq<u8> {
        buf_contents(self.outbuf)
    }

    pub closed spec fn state(&self) -> ClientState {
        self.state
    }

    pub closed spec fn compression(&self) -> Option<usize> {
        self.compression
    }

    pub closed spec fn encrypted(&self) -> bool {
        self.ciphers is Some
    }

    /// The connection is well formed: once encryption is on, both ciphers
    /// are AES-128 in CFB8 mode.
    pub closed spec fn wf(&self) -> bool {
        match self.ciphers {
            Some((o, i)) => crypter_is_cfb8(o) && crypter_is_cfb8(i),
            None => true,
        }
    }

    /// The two ciphers, once encryption is on: for the outbound one, then for
    /// the inbound one, the key, whether it encrypts, and the bytes fed to it
    /// so far.
    pub closed spec fn cipher_view(&self) -> Option<(Seq<u8>, bool, Seq<u8>, Seq<u8>, bool, Seq<u8>)> {
        match self.ciphers {
            Some((o, i)) => Some(
                (
                    crypter_key(o),
                    crypter_encrypts(o),
                    crypter_fed(o),
                    crypter_key(i),
                    crypter_encrypts(i),
                    crypter_fed(i),
                ),
            ),
            None => None,
        }
    }

    pub closed spec fn is_closed(&self) -> bool {
        self.closed
    }

    /// A fresh connection: in the handshake state, with no compression, no
    /// encryption and empty buffers.
    pub fn new() -> (r: Self)
        ensures
            r.state() == ClientState::Handshake,
            r.unread() == Seq::<u8>::empty(),
            r.pending() == Seq::<u8>::empty(),
            r.compression() is None,
            !r.encrypted(),
            r.cipher_view() is None,
            r.wf(),
            !r.is_closed(),
    {
        Connection {
            state: ClientState::Handshake,
            inbuf: buf_new(),
            compression: None,
            outbuf: buf_new(),
            ciphers: None,
            closed: false,
        }
    }

    /// The current protocol state.
    pub fn clientstate(&self) -> (r: ClientState)
        ensures
            r == self.state(),
    {
        self.state
    }

    /// The compression threshold, if compression is on.
    pub fn compression_threshold(&self) -> (r: Option<usize>)
        ensures
            r == self.compression(),
    {
        self.compression
    }

    /// Whether encryption is on.
    pub fn is_encrypted(&self) -> (r: bool)
        ensures
            r == self.encrypted(),
    {
        self.ciphers.is_some()
    }

    /// Whether the connection was closed.
    pub fn closed(&self) -> (r: bool)
        ensures
            r == self.is_closed(),
    {
        self.closed
    }

    /// Change the protocol state; it applies from the next packet on.
    pub fn set_clientstate(&mut self, new_state: ClientState)
        ensures
            old(self).wf() ==> final(self).wf(),
            final(self).state() == new_state,
            final(self).unread() == old(self).unread(),
            final(self).pending() == old(self).pending(),
            final(self).compression() == old(self).compression(),
            final(self).encrypted() == old(self).encrypted(),
            final(self).cipher_view() == old(self).cipher_view(),
            final(self).is_closed() == old(self).is_closed(),
    {
        self.state = new_state;
    }

    /// Turn compression on with the given threshold. It can be turned on only
    /// once.
    pub fn enable_compression(&mut self, threshold: usize) -> (r: Result<(), ProtoError>)
        ensures
            old(self).wf() ==> final(self).wf(),
            r is Ok <==> old(self).compression() is None,
            r is Ok ==> final(self).compression() == Some(threshold),
            r is Err ==> final(self).compression() == old(self).compression()
                && r.unwrap_err() is ProtocolViolation,
            final(self).state() == old(self).state(),
            final(self).unread() == old(self).unread(),
            final(self).pending() == old(self).pending(),
            final(self).encrypted() == old(self).encrypted(),
            final(self).cipher_view() == old(self).cipher_view(),
            final(self).is_closed() == old(self).is_closed(),
    {
        if self.compression.is_some() {
            return Err(ProtoError::ProtocolViolation { reason: reason("compression enabled twice") });
        }
        self.compression = Some(threshold);
        Ok(())
    }

    /// Turn encryption on in both directions: AES-128 in CFB8 mode with `key`
    /// as key and IV. It can be turned on only once.
    pub fn enable_encryption(&mut self, key: &[u8; 16]) -> (r: Result<(), ProtoError>)
        ensures
            old(self).wf() ==> final(self).wf(),
            old(self).encrypted() ==> r is Err && r.unwrap_err() is ProtocolViolation,
            r is Ok ==> final(self).encrypted() && final(self).cipher_view() == Some(
                (key@, true, Seq::<u8>::empty(), key@, false, Seq::<u8>::empty()),
            ),
            r is Err ==> final(self).encrypted() == old(self).encrypted()
                && final(self).cipher_view() == old(self).cipher_view(),
            r is Err && !old(self).encrypted() ==> r.unwrap_err() is CryptoError,
            final(self).state() == old(self).state(),
            final(self).unread() == old(self).unread(),
            final(self).pending() == old(self).pending(),
            final(self).compression() == old(self).compression(),
            final(self).is_closed() == old(self).is_closed(),
    {
        if self.ciphers.is_some() {
            return Err(ProtoError::ProtocolViolation { reason: reason("encryption enabled twice") });
        }
        let out_c = match crypter_new(key, true) {
            Some(c) => c,
            None => return Err(ProtoError::CryptoError),
        };
        let in_c = match crypter_new(key, false) {
            Some(c) => c,
            None => return Err(ProtoError::CryptoError),
        };
        self.ciphers = Some((out_c, in_c));
        Ok(())
    }

    /// Mark the connection closed; every later operation fails with `Closed`.
    pub fn close(&mut self)
        ensures
            old(self).wf() ==> final(self).wf(),
            final(self).is_closed(),
            final(self).state() == old(self).state(),
            final(self).unread() == old(self).unread(),
            final(self).pending() == old(self).pending(),
            final(self).compression() == old(self).compression(),
            final(self).encrypted() == old(self).encrypted(),
            final(self).cipher_view() == old(self).cipher_view(),
    {
        self.closed = true;
    }

    /// Take bytes received from the peer, deciphering them when encryption is
    /// on.
    pub fn ingest(&mut self, data: &[u8]) -> (r: Result<(), ProtoError>)
        requires
            old(self).wf(),
        ensures
            old(self).wf() ==> final(self).wf(),
            old(self).is_closed() ==> r is Err && r.unwrap_err() is Closed,
            !old(self).is_closed() && !old(self).encrypted() ==> r is Ok && final(self).unread()
                == old(self).unread() + data@,
            old(self).encrypted() && data@.len() > MAX_CHUNK_LEN ==> r is Err,
            r is Ok ==> final(self).unread().len() == old(self).unread().len() + data@.len(),
            r is Ok && old(self).cipher_view() is Some ==> {
                let v = old(self).cipher_view().unwrap();
                &&& final(self).unread() == old(self).unread() + stream_next(v.3, v.4, v.5, data@)
                &&& final(self).cipher_view() == Some((v.0, v.1, v.2, v.3, v.4, v.5 + data@))
            },
            old(self).cipher_view() is None ==> final(self).cipher_view() is None,
            r is Err ==> final(self).unread() == old(self).unread(),
            r is Err && !old(self).is_closed() ==> r.unwrap_err() is CryptoError,
            final(self).state() == old(self).state(),
            final(self).pending() == old(self).pending(),
            final(self).compression() == old(self).compression(),
            final(self).encrypted() == old(self).encrypted(),
            final(self).is_closed() == old(self).is_closed(),
    {
        if self.closed {
            return Err(ProtoError::Closed);
        }
        if self.ciphers.is_some() && data.len() > MAX_CHUNK_LEN {
            return Err(ProtoError::CryptoError);
        }
        let mut cs = self.ciphers.take();
        let res = match &mut cs {
            Some((_, c)) => Some(crypter_update(c, data)),
            None => None,
        };
        self.ciphers = cs;
        let plain = match res {
            Some(Some(p)) => p,
            Some(None) => return Err(ProtoError::CryptoError),
            None => vstd::slice::slice_to_vec(data),
        };
        buf_extend(&mut self.inbuf, plain.as_slice());
        assert(self.unread() =~= old(self).unread() + plain@);
        Ok(())
    }

    /// Frame a packet body, encipher it when encryption is on, and queue it
    /// for the peer. Returns how many bytes are queued.
    pub fn send_bytes(&mut self, body: &[u8]) -> (r: Result<usize, ProtoError>)
        requires
            old(self).wf(),
        ensures
            old(self).wf() ==> final(self).wf(),
            old(self).is_closed() ==> r is Err && r.unwrap_err() is Closed,
            !old(self).is_closed() && !old(self).encrypted() && body@.len() <= MAX_FRAME_LEN && (
            old(self).compression() is Some && body@.len() >= old(self).compression().unwrap()
                && body@.len() > 0 ==> zlib_compressed(body@).len() <= MAX_FRAME_LEN) ==> r is Ok,
            r is Ok && !old(self).encrypted() ==> final(self).pending() == old(self).pending()
                + frame_bytes(body@, old(self).compression()),
            r is Ok && old(self).cipher_view() is Some ==> {
                let v = old(self).cipher_view().unwrap();
                let f = frame_bytes(body@, old(self).compression());
                &&& final(self).pending() == old(self).pending() + stream_next(v.0, v.1, v.2, f)
                &&& final(self).cipher_view() == Some((v.0, v.1, v.2 + f, v.3, v.4, v.5))
            },
            r is Ok ==> final(self).pending() == old(self).pending() + sealed(
                *old(self),
                frame_bytes(body@, old(self).compression()),
            ),
            r is Ok ==> final(self).cipher_view() == sealed_view(
                *old(self),
                frame_bytes(body@, old(self).compression()),
            ),
            old(self).cipher_view() is None ==> final(self).cipher_view() is None,
            r is Ok ==> final(self).pending().len() == old(self).pending().len() + frame_bytes(
                body@,
                old(self).compression(),
            ).len(),
            r is Ok && old(self).compression() is Some && body@.len() >= old(self).compression().unwrap()
                && body@.len() > 0 ==> zlib_decompressed(zlib_compressed(body@)) == Some(body@),
            r is Err && !(r.unwrap_err() is CryptoError) ==> final(self).cipher_view() == old(self).cipher_view(),
            r is Ok ==> r.unwrap() == final(self).pending().len(),
            r is Err ==> final(self).pending() == old(self).pending(),
            r is Err ==> r.unwrap_err() is Closed || r.unwrap_err() is InvalidOutbound
                || r.unwrap_err() is CryptoError,
            final(self).state() == old(self).state(),
            final(self).unread() == old(self).unread(),
            final(self).compression() == old(self).compression(),
            final(self).encrypted() == old(self).encrypted(),
            final(self).is_closed() == old(self).is_closed(),
    {
        if self.closed {
            return Err(ProtoError::Closed);
        }
        let framed = frame_packet(body, self.compression)?;
        let mut cs = self.ciphers.take();
        let res = match &mut cs {
            Some((c, _)) => Some(crypter_update(c, framed.as_slice())),
            None => None,
        };
        self.ciphers = cs;
        let sealed = match res {
            Some(Some(s)) => s,
            Some(None) => return Err(ProtoError::CryptoError),
            None => framed,
        };
        buf_extend(&mut self.outbuf, sealed.as_slice());
        assert(self.pending() =~= old(self).pending() + sealed@);
        Ok(buf_len(&self.outbuf))
    }

    /// A copy of the bytes queued for the peer.
    pub fn pending_output(&self) -> (r: Vec<u8>)
        ensures
            r@ == self.pending(),
    {
        let n = buf_len(&self.outbuf);
        buf_prefix(&self.outbuf, n)
    }

    /// Drop the first `n` queued bytes, once they were written to the peer.
    pub fn mark_written(&mut self, n: usize)
        requires
            n <= old(self).pending().len(),
        ensures
            old(self).wf() ==> final(self).wf(),
            final(self).pending() == old(self).pending().skip(n as int),
            final(self).state() == old(self).state(),
            final(self).unread() == old(self).unread(),
            final(self).compression() == old(self).compression(),
            final(self).encrypted() == old(self).encrypted(),
            final(self).cipher_view() == old(self).cipher_view(),
            final(self).is_closed() == old(self).is_closed(),
    {
        buf_consume(&mut self.outbuf, n);
    }

    /// Cut the next frame off the received bytes. When not enough bytes are
    /// there, nothing changes and `None` comes back, unless the caller reports
    /// that the idle time ran out: then the connection closes with `Timeout`.
    pub fn next_frame(&mut self, idle_expired: bool) -> (r: Result<Option<Vec<u8>>, ProtoError>)
        ensures
            old(self).wf() ==> final(self).wf(),
            old(self).is_closed() ==> r is Err && r.unwrap_err() is Closed,
            !old(self).is_closed() ==> match parse_frame(old(self).unread()) {
                FrameParse::Complete(body, rest) => r is Ok && r.unwrap() is Some
                    && r.unwrap().unwrap()@ == body && final(self).unread() == rest,
                FrameParse::Incomplete => if idle_expired {
                    r is Err && r.unwrap_err() is Timeout && final(self).is_closed()
                } else {
                    r is Ok && r.unwrap() is None && final(self).unread() == old(self).unread()
                },
                FrameParse::Malformed => r is Err && r.unwrap_err() is Malformed,
            },
            r is Ok ==> !final(self).is_closed(),
            final(self).state() == old(self).state(),
            final(self).pending() == old(self).pending(),
            final(self).compression() == old(self).compression(),
            final(self).encrypted() == old(self).encrypted(),
            final(self).cipher_view() == old(self).cipher_view(),
    {
        if self.closed {
            return Err(ProtoError::Closed);
        }
        let have = buf_len(&self.inbuf);
        let k: usize = if have < 5 {
            have
        } else {
            5
        };
        let hdr = buf_prefix(&self.inbuf, k);
        let ghost s = buf_contents(self.inbuf);
        proof {
            lemma_leb_len_take(s, k as nat, 5);
            lemma_leb_len_bound(s, 5);
        }
        let mut rd = Reader::new(hdr);
        let v = match read_leb(&mut rd, 5) {
            Ok(v) => v,
            Err(_) => {
                if have >= 5 {
                    return Err(ProtoError::Malformed);
                }
                if idle_expired {
                    self.closed = true;
                    return Err(ProtoError::Timeout);
                }
                return Ok(None);
            },
        };
        let ghost l = leb_len(s, 5).unwrap();
        let used = k - rd.len();
        assert(hdr@.take(l as int) =~= s.take(l as int));
        if v >= 0x8000_0000 {
            return Err(ProtoError::Malformed);
        }
        let n = v as usize;
        if have - used < n {
            if idle_expired {
                self.closed = true;
                return Err(ProtoError::Timeout);
            }
            return Ok(None);
        }
        buf_consume(&mut self.inbuf, used);
        let frame = buf_prefix(&self.inbuf, n);
        buf_consume(&mut self.inbuf, n);
        assert(frame@ =~= s.subrange(l as int, (l + n) as int));
        assert(buf_contents(self.inbuf) =~= s.skip((l + n) as int));
        Ok(Some(frame))
    }
}

} // verus!
