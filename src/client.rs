//! The client side of a connection: packet-level reads and sends, automatic
//! handling of keep-alives, compression and login success, and the login
//! state machine.
use vstd::prelude::*;

use crate::clientbound::{
    clientbound_packet_body_parses, clientbound_packet_key, clientbound_packet_known,
    clientbound_packet_parsed_from, ClientboundPacket, EncryptionRequest,
};
use crate::bindings::zlib_compressed;
use crate::clientbound::str_fits;
use crate::connection::{lemma_leb_len_bound, sealed, sealed_view, Connection};
use crate::wire::{
    lemma_be_bytes_len, lemma_varint_round_trip, string_bytes, unsigned_of, MAX_STRING_LEN,
};
use crate::yggdrasil::RSA_CIPHERTEXT_LEN;
use vstd::utf8::encode_utf8;
use crate::error::{reason, Direction, ProtoError};
use crate::frame::{frame_bytes, frame_payload, parse_frame, unwrap_frame, FrameParse, MAX_FRAME_LEN};
use crate::serverbound::{
    handshake_bytes, login_start_bytes, serverbound_packet_body_bytes, serverbound_packet_fits,
    serverbound_packet_key, EncryptionResponse, Handshake, KeepAlive, LoginStart, ServerboundPacket,
};
use vstd::string::StringExecFns;
use crate::wire::{parse_varint, varint_bytes};
use crate::{ClientState, PROTOCOL_VERSION};

verus! {

/// What the next received packet was, seen from its frame: the packet was cut
/// from the front of `unread`, unwrapped and decoded in `state`.
pub open spec fn packet_arrived(
    p: ClientboundPacket,
    unread: Seq<u8>,
    rest: Seq<u8>,
    compressed: bool,
    state: ClientState,
) -> bool {
    match parse_frame(unread) {
        FrameParse::Complete(body, after) => after == rest && match frame_payload(body, compressed) {
            Some(payload) => match parse_varint(payload) {
                Some((id, fields)) => clientbound_packet_key(p) == (state, id)
                    && clientbound_packet_parsed_from(p, fields),
                None => false,
            },
            None => false,
        },
        _ => false,
    }
}

/// The wire form of a packet sent on a connection with the given compression
/// threshold.
pub open spec fn sent_bytes(p: ServerboundPacket, threshold: Option<usize>) -> Seq<u8> {
    frame_bytes(varint_bytes(serverbound_packet_key(p).1) + serverbound_packet_body_bytes(p), threshold)
}

/// Whether a packet is one that automatic handling takes care of.
pub open spec fn is_handled(p: ClientboundPacket) -> bool {
    p is LoginSuccess || p is SetCompression || p is KeepAlive
}

/// A connection to a server.
pub struct Client {
    conn: Connection,
    auto_handle: bool,
    hide_handled: bool,
}

impl Client {
    pub closed spec fn connection(&self) -> Connection {
        self.conn
    }

    pub closed spec fn auto_handles(&self) -> bool {
        self.auto_handle
    }

    pub closed spec fn hides_handled(&self) -> bool {
        self.hide_handled
    }

    /// A client on a fresh connection, with automatic handling off.
    pub fn new() -> (r: Self)
        ensures
            r.connection().state() == ClientState::Handshake,
            r.connection().unread() == Seq::<u8>::empty(),
            r.connection().pending() == Seq::<u8>::empty(),
            r.connection().compression() is None,
            !r.connection().encrypted(),
            !r.connection().is_closed(),
            r.connection().wf(),
            !r.auto_handles(),
            !r.hides_handled(),
    {
        Client { conn: Connection::new(), auto_handle: false, hide_handled: false }
    }

    /// Whether to answer keep-alives, apply compression and enter play on
    /// login success by itself.
    pub fn set_auto_handle(&mut self, new: bool)
        ensures
            final(self).auto_handles() == new,
            final(self).hides_handled() == old(self).hides_handled(),
            final(self).connection() == old(self).connection(),
    {
        self.auto_handle = new;
    }

    /// Whether packets that were handled automatically are kept from `read`.
    pub fn set_hide_handled(&mut self, new: bool)
        ensures
            final(self).hides_handled() == new,
            final(self).auto_handles() == old(self).auto_handles(),
            final(self).connection() == old(self).connection(),
    {
        self.hide_handled = new;
    }

    /// The underlying connection.
    pub fn conn(&self) -> (r: &Connection)
        ensures
            *r == self.connection(),
    {
        &self.conn
    }

    /// The underlying connection, to feed it bytes or drain it.
    pub fn conn_mut(&mut self) -> (r: &mut Connection)
        ensures
            *r == old(self).connection(),
            final(self).connection() == *final(r),
            final(self).auto_handles() == old(self).auto_handles(),
            final(self).hides_handled() == old(self).hides_handled(),
    {
        &mut self.conn
    }

    /// Change the protocol state.
    pub fn set_clientstate(&mut self, new_state: ClientState)
        ensures
            old(self).connection().wf() ==> final(self).connection().wf(),
            final(self).connection().state() == new_state,
            final(self).connection().unread() == old(self).connection().unread(),
            final(self).connection().pending() == old(self).connection().pending(),
            final(self).connection().compression() == old(self).connection().compression(),
            final(self).connection().encrypted() == old(self).connection().encrypted(),
            final(self).connection().is_closed() == old(self).connection().is_closed(),
            final(self).auto_handles() == old(self).auto_handles(),
            final(self).hides_handled() == old(self).hides_handled(),
    {
        self.conn.set_clientstate(new_state)
    }

    /// Turn encryption on with the shared secret.
    pub fn enable_encryption(&mut self, key: &[u8; 16]) -> (r: Result<(), ProtoError>)
        ensures
            old(self).connection().wf() ==> final(self).connection().wf(),
            old(self).connection().encrypted() ==> r is Err && r.unwrap_err() is ProtocolViolation,
            r is Ok ==> final(self).connection().encrypted() && final(self).connection().cipher_view()
                == Some((key@, true, Seq::<u8>::empty(), key@, false, Seq::<u8>::empty())),
            r is Err ==> final(self).connection().cipher_view() == old(self).connection().cipher_view()
                && final(self).connection().encrypted() == old(self).connection().encrypted(),
            r is Err && !old(self).connection().encrypted() ==> r.unwrap_err() is CryptoError,
            final(self).connection().state() == old(self).connection().state(),
            final(self).connection().unread() == old(self).connection().unread(),
            final(self).connection().pending() == old(self).connection().pending(),
            final(self).connection().compression() == old(self).connection().compression(),
            final(self).connection().is_closed() == old(self).connection().is_closed(),
            final(self).auto_handles() == old(self).auto_handles(),
            final(self).hides_handled() == old(self).hides_handled(),
    {
        self.conn.enable_encryption(key)
    }

    /// Turn compression on with the threshold.
    pub fn enable_compression(&mut self, threshold: usize) -> (r: Result<(), ProtoError>)
        ensures
            old(self).connection().wf() ==> final(self).connection().wf(),
            r is Ok <==> old(self).connection().compression() is None,
            r is Ok ==> final(self).connection().compression() == Some(threshold),
            r is Err ==> final(self).connection().compression() == old(self).connection().compression()
                && r.unwrap_err() is ProtocolViolation,
            final(self).connection().state() == old(self).connection().state(),
            final(self).connection().unread() == old(self).connection().unread(),
            final(self).connection().pending() == old(self).connection().pending(),
            final(self).connection().encrypted() == old(self).connection().encrypted(),
            final(self).connection().cipher_view() == old(self).connection().cipher_view(),
            final(self).connection().is_closed() == old(self).connection().is_closed(),
            final(self).auto_handles() == old(self).auto_handles(),
            final(self).hides_handled() == old(self).hides_handled(),
    {
        self.conn.enable_compression(threshold)
    }

    /// Close the connection.
    pub fn close(&mut self)
        ensures
            old(self).connection().wf() ==> final(self).connection().wf(),
            final(self).connection().is_closed(),
            final(self).connection().state() == old(self).connection().state(),
            final(self).connection().unread() == old(self).connection().unread(),
            final(self).connection().pending() == old(self).connection().pending(),
            final(self).connection().compression() == old(self).connection().compression(),
            final(self).connection().encrypted() == old(self).connection().encrypted(),
            final(self).connection().cipher_view() == old(self).connection().cipher_view(),
            final(self).auto_handles() == old(self).auto_handles(),
            final(self).hides_handled() == old(self).hides_handled(),
    {
        self.conn.close()
    }

    /// Queue a packet for the server. Returns how many bytes are queued.
    pub fn send(&mut self, packet: &ServerboundPacket) -> (r: Result<usize, ProtoError>)
        requires
            old(self).connection().wf(),
        ensures
            old(self).connection().wf() ==> final(self).connection().wf(),
            !serverbound_packet_fits(*packet) ==> r is Err && r.unwrap_err() is InvalidOutbound,
            serverbound_packet_fits(*packet) && !old(self).connection().is_closed() && !old(self).connection().encrypted() && send_fits(old(self).connection(), packet_bytes(*packet))
                ==> r is Ok,
            r is Ok && !old(self).connection().encrypted() ==> final(self).connection().pending()
                == old(self).connection().pending() + sent_bytes(
                *packet,
                old(self).connection().compression(),
            ),
            r is Ok ==> final(self).connection().pending() == old(self).connection().pending()
                + sealed(old(self).connection(), sent_bytes(*packet, old(self).connection().compression())),
            r is Ok ==> final(self).connection().cipher_view() == sealed_view(
                old(self).connection(),
                sent_bytes(*packet, old(self).connection().compression()),
            ),
            r is Err ==> final(self).connection().pending() == old(self).connection().pending(),
            r is Err ==> r.unwrap_err() is Closed || r.unwrap_err() is InvalidOutbound
                || r.unwrap_err() is CryptoError,
            r is Err && !(r.unwrap_err() is CryptoError) ==> final(self).connection().cipher_view()
                == old(self).connection().cipher_view(),
            final(self).connection().state() == old(self).connection().state(),
            final(self).connection().unread() == old(self).connection().unread(),
            final(self).connection().compression() == old(self).connection().compression(),
            final(self).connection().encrypted() == old(self).connection().encrypted(),
            final(self).connection().is_closed() == old(self).connection().is_closed(),
            final(self).auto_handles() == old(self).auto_handles(),
            final(self).hides_handled() == old(self).hides_handled(),
    {
        let bytes = packet.to_u8()?;
        self.conn.send_bytes(bytes.as_slice())
    }

    /// Read at most one packet from the received bytes, and handle it when
    /// automatic handling is on: a keep-alive is echoed, compression is turned
    /// on, and login success moves the connection to play. `None` means a whole
    /// packet has not arrived yet.
    #[verifier::rlimit(100)]
    #[verifier::spinoff_prover]
    pub fn read_packet(&mut self, idle_expired: bool) -> (r: Result<Option<ClientboundPacket>, ProtoError>)
        requires
            old(self).connection().wf(),
        ensures
            r is Err ==> read_may_fail(old(self).connection(), old(self).auto_handles(), idle_expired),
            r is Ok && r.unwrap() is Some ==> read_step(
                old(self).connection(),
                old(self).auto_handles(),
                r.unwrap().unwrap(),
                final(self).connection(),
            ),
            r is Ok && r.unwrap() is None ==> same_connection(old(self).connection(), final(self).connection()),
            old(self).connection().is_closed() ==> r is Err && r.unwrap_err() is Closed,
            !old(self).connection().is_closed() && next_read_fails(old(self).connection(), idle_expired)
                ==> r is Err && next_read_error(old(self).connection(), r.unwrap_err()),
            !old(self).connection().is_closed() && parse_frame(old(self).connection().unread())
                is Incomplete && idle_expired ==> final(self).connection().is_closed(),
            r is Err ==> final(self).connection().state() == old(self).connection().state()
                && final(self).connection().compression() == old(self).connection().compression(),
            r is Err && !(r.unwrap_err() is CryptoError) ==> final(self).connection().cipher_view()
                == old(self).connection().cipher_view(),
            old(self).connection().wf() ==> final(self).connection().wf(),
            r is Ok && r.unwrap() is Some ==> packet_arrived(
                r.unwrap().unwrap(),
                old(self).connection().unread(),
                final(self).connection().unread(),
                old(self).connection().compression() is Some,
                old(self).connection().state(),
            ),
            !old(self).connection().is_closed() && next_packet_id(old(self).connection()) is Some
                ==> (r is Ok && r.unwrap() is Some) || (old(self).auto_handles() && r is Err
                && handling_may_fail(old(self).connection(), next_packet_id(old(self).connection()).unwrap())),
            !old(self).connection().is_closed() && parse_frame(old(self).connection().unread())
                is Incomplete && !idle_expired ==> r is Ok && r.unwrap() is None,
            parse_frame(old(self).connection().unread()) is Malformed ==> r is Err,
            r is Ok && r.unwrap() is None ==> parse_frame(old(self).connection().unread()) is Incomplete
                && final(self).connection().unread() == old(self).connection().unread()
                && final(self).connection().state() == old(self).connection().state()
                && final(self).connection().compression() == old(self).connection().compression()
                && final(self).connection().pending() == old(self).connection().pending()
                && final(self).connection().cipher_view() == old(self).connection().cipher_view()
                && !final(self).connection().is_closed(),
            r is Ok && r.unwrap() is Some && !(old(self).auto_handles() && is_handled(r.unwrap().unwrap()))
                ==> final(self).connection().state() == old(self).connection().state()
                && final(self).connection().compression() == old(self).connection().compression()
                && final(self).connection().pending() == old(self).connection().pending()
                && final(self).connection().cipher_view() == old(self).connection().cipher_view(),
            r is Ok && old(self).auto_handles() ==> match r.unwrap() {
                Some(ClientboundPacket::LoginSuccess(_)) => final(self).connection().state()
                    == ClientState::Play && final(self).connection().compression() == old(self).connection().compression() && final(self).connection().pending() == old(self).connection().pending() && final(self).connection().cipher_view() == old(self).connection().cipher_view(),
                Some(ClientboundPacket::SetCompression(p)) => (p.threshold >= 0 ==> final(self).connection().compression() == Some(p.threshold as usize)) && (p.threshold < 0
                    ==> final(self).connection().compression() == old(self).connection().compression())
                    && final(self).connection().state() == old(self).connection().state() && final(self).connection().pending() == old(self).connection().pending() && final(self).connection().cipher_view() == old(self).connection().cipher_view(),
                Some(ClientboundPacket::KeepAlive(p)) => final(self).connection().pending() == old(self).connection().pending() + sealed(
                    old(self).connection(),
                    sent_bytes(
                        ServerboundPacket::KeepAlive(KeepAlive { id: p.id }),
                        old(self).connection().compression(),
                    ),
                ) && final(self).connection().cipher_view() == sealed_view(
                    old(self).connection(),
                    sent_bytes(
                        ServerboundPacket::KeepAlive(KeepAlive { id: p.id }),
                        old(self).connection().compression(),
                    ),
                ) && final(self).connection().state() == old(self).connection().state() && final(self).connection().compression() == old(self).connection().compression(),
                _ => true,
            },
            final(self).connection().encrypted() == old(self).connection().encrypted(),
            final(self).auto_handles() == old(self).auto_handles(),
            final(self).hides_handled() == old(self).hides_handled(),
    {
        let compressed = self.conn.compression_threshold().is_some();
        let state = self.conn.clientstate();
        let frame = match self.conn.next_frame(idle_expired)? {
            Some(f) => f,
            None => return Ok(None),
        };
        let payload = unwrap_frame(frame, compressed)?;
        let packet = ClientboundPacket::deserialize(payload.as_slice(), state)?;
        if self.auto_handle {
            match &packet {
                ClientboundPacket::LoginSuccess(_) => {
                    self.conn.set_clientstate(ClientState::Play);
                },
                ClientboundPacket::SetCompression(p) => {
                    if p.threshold >= 0 {
                        self.conn.enable_compression(p.threshold as usize)?;
                    }
                },
                ClientboundPacket::KeepAlive(p) => {
                    let echo = ServerboundPacket::KeepAlive(KeepAlive { id: p.id });
                    proof {
                        lemma_keep_alive_small(p.id);
                    }
                    self.send(&echo)?;
                },
                _ => {},
            }
        }
        Ok(Some(packet))
    }

    /// Read every packet that has fully arrived, in order. Packets that were
    /// handled automatically are left out when both automatic handling and
    /// hiding are on.
    pub fn read(&mut self, idle_expired: bool) -> (r: Result<Vec<ClientboundPacket>, ProtoError>)
        requires
            old(self).connection().wf(),
        ensures
            old(self).connection().wf() ==> final(self).connection().wf(),
            r is Ok && old(self).auto_handles() && old(self).hides_handled() ==> forall|i: int|
                0 <= i < r.unwrap()@.len() ==> !is_handled(#[trigger] r.unwrap()@[i]),
            r is Ok ==> parse_frame(final(self).connection().unread()) is Incomplete,
            r is Ok ==> exists|cs: Seq<Connection>, ps: Seq<ClientboundPacket>|
                #[trigger] read_chain(cs, ps, old(self).auto_handles()) && cs[0] == old(self).connection()
                    && same_connection(cs.last(), final(self).connection()) && r.unwrap()@
                    == shown(ps, old(self).auto_handles() && old(self).hides_handled()),
            r is Err ==> exists|cs: Seq<Connection>, ps: Seq<ClientboundPacket>|
                #[trigger] read_chain(cs, ps, old(self).auto_handles()) && cs[0] == old(self).connection()
                    && read_may_fail(cs.last(), old(self).auto_handles(), idle_expired),
            !old(self).connection().is_closed() && parse_frame(old(self).connection().unread())
                is Incomplete && !idle_expired ==> r is Ok && r.unwrap()@.len() == 0
                && final(self).connection().unread() == old(self).connection().unread()
                && final(self).connection().pending() == old(self).connection().pending(),
            final(self).auto_handles() == old(self).auto_handles(),
            final(self).hides_handled() == old(self).hides_handled(),
    {
        let mut out: Vec<ClientboundPacket> = Vec::new();
        let hide = self.auto_handle && self.hide_handled;
        let ghost auto = self.auto_handle;
        let ghost mut cs: Seq<Connection> = seq![self.conn];
        let ghost mut ps: Seq<ClientboundPacket> = seq![];
        assert(out@ =~= shown(ps, hide));
        loop
            invariant
                self.conn.wf(),
                hide == (self.auto_handle && self.hide_handled),
                auto == self.auto_handle,
                self.auto_handle == old(self).auto_handle,
                self.hide_handled == old(self).hide_handled,
                hide ==> forall|i: int| 0 <= i < out@.len() ==> !is_handled(#[trigger] out@[i]),
                !old(self).conn.is_closed() && parse_frame(old(self).conn.unread()) is Incomplete
                    && !idle_expired ==> out@.len() == 0 && self.conn.unread() == old(self).conn.unread()
                    && self.conn.pending() == old(self).conn.pending() && !self.conn.is_closed(),
                read_chain(cs, ps, auto),
                cs[0] == old(self).conn,
                cs.last() == self.conn,
                out@ == shown(ps, hide),
            decreases self.conn.unread().len(),
        {
            let before = Ghost(self.conn.unread());
            let ghost c0 = self.conn;
            match self.read_packet(idle_expired) {
                Ok(Some(p)) => {
                    proof {
                        lemma_complete_shrinks(before@);
                        assert(read_step(c0, auto, p, self.conn));
                        let cs2 = cs.push(self.conn);
                        let ps2 = ps.push(p);
                        assert forall|i: int| 0 <= i < ps2.len() implies read_step(
                            cs2[i],
                            auto,
                            ps2[i],
                            cs2[i + 1],
                        ) by {
                            if i < ps.len() {
                                assert(cs2[i] == cs[i] && cs2[i + 1] == cs[i + 1] && ps2[i] == ps[i]);
                            }
                        }
                        assert(ps2.drop_last() =~= ps);
                        cs = cs2;
                        ps = ps2;
                    }
                    let handled = match &p {
                        ClientboundPacket::LoginSuccess(_) => true,
                        ClientboundPacket::SetCompression(_) => true,
                        ClientboundPacket::KeepAlive(_) => true,
                        _ => false,
                    };
                    assert(handled == is_handled(p));
                    if !(hide && handled) {
                        out.push(p);
                    }
                    assert(out@ =~= shown(ps, hide));
                },
                Ok(None) => {
                    proof {
                        assert(read_chain(cs, ps, old(self).auto_handles()) && cs[0] == old(self).connection() && same_connection(
                            cs.last(),
                            self.conn,
                        ) && out@ == shown(ps, hide));
                    }
                    return Ok(out);
                },
                Err(e) => {
                    proof {
                        assert(read_chain(cs, ps, old(self).auto_handles()) && cs[0] == old(self).connection() && read_may_fail(
                            cs.last(),
                            old(self).auto_handles(),
                            idle_expired,
                        ));
                    }
                    return Err(e);
                },
            }
        }
    }

    /// The first steps of a login: send the handshake (protocol 316, the
    /// address and port, next state 2), move to the login state, and send the
    /// login start with the player name.
    pub fn start_login(&mut self, host: &str, port: u16, username: &str) -> (r: Result<(), ProtoError>)
        requires
            old(self).connection().wf(),
        ensures
            old(self).connection().wf() ==> final(self).connection().wf(),
            !old(self).connection().is_closed() && !old(self).connection().encrypted() && old(self).connection().compression() is None && encode_utf8(host@).len() <= MAX_STRING_LEN
                && encode_utf8(username@).len() <= MAX_STRING_LEN ==> r is Ok,
            r is Ok ==> final(self).connection().state() == ClientState::Login,
            r is Ok && !old(self).connection().encrypted() ==> final(self).connection().pending()
                == old(self).connection().pending() + frame_bytes(
                varint_bytes(0) + handshake_bytes((PROTOCOL_VERSION, host@, port, 2)),
                old(self).connection().compression(),
            ) + frame_bytes(
                varint_bytes(0) + login_start_bytes((username@,)),
                old(self).connection().compression(),
            ),
            final(self).auto_handles() == old(self).auto_handles(),
            final(self).hides_handled() == old(self).hides_handled(),
    {
        let hs = ServerboundPacket::Handshake(
            Handshake {
                protocol_version: PROTOCOL_VERSION,
                server_address: String::from_str(host),
                server_port: port,
                next_state: 2,
            },
        );
        proof {
            if encode_utf8(host@).len() <= MAX_STRING_LEN {
                lemma_string_small(host@);
            }
            lemma_varint_round_trip(0, seq![]);
            lemma_varint_round_trip(PROTOCOL_VERSION, seq![]);
            lemma_varint_round_trip(2, seq![]);
            lemma_be_bytes_len(port as nat, 2);
        }
        self.send(&hs)?;
        self.set_clientstate(ClientState::Login);
        let ls = ServerboundPacket::LoginStart(LoginStart { name: String::from_str(username) });
        proof {
            if encode_utf8(username@).len() <= MAX_STRING_LEN {
                lemma_string_small(username@);
            }
        }
        self.send(&ls)?;
        Ok(())
    }

    /// Answer the server's encryption request: send both the shared secret
    /// and the verify token encrypted with the server's key, then turn
    /// encryption on with the secret. The session service must have been told
    /// of the join before.
    pub fn complete_encryption(&mut self, request: &EncryptionRequest, secret: &[u8; 16]) -> (r: Result<
        (),
        ProtoError,
    >)
        requires
            old(self).connection().wf(),
        ensures
            old(self).connection().wf() ==> final(self).connection().wf(),
            old(self).connection().encrypted() ==> r is Err && r.unwrap_err() is ProtocolViolation,
            !old(self).connection().encrypted() && r is Err ==> !(r.unwrap_err() is ProtocolViolation),
            r is Ok ==> exists|p: EncryptionResponse|
                p.shared_secret@.len() == RSA_CIPHERTEXT_LEN && p.verify_token@.len() == RSA_CIPHERTEXT_LEN
                    && final(self).connection().pending() == old(self).connection().pending()
                    + #[trigger] sent_bytes(
                    ServerboundPacket::EncryptionResponse(p),
                    old(self).connection().compression(),
                ),
            r is Ok ==> final(self).connection().cipher_view() == Some(
                (secret@, true, Seq::<u8>::empty(), secret@, false, Seq::<u8>::empty()),
            ),
            final(self).connection().state() == old(self).connection().state(),
            final(self).connection().unread() == old(self).connection().unread(),
            final(self).connection().compression() == old(self).connection().compression(),
            final(self).auto_handles() == old(self).auto_handles(),
            final(self).hides_handled() == old(self).hides_handled(),
    {
        if self.conn.is_encrypted() {
            return Err(ProtoError::ProtocolViolation { reason: reason("encryption enabled twice") });
        }
        let response = EncryptionResponse::new_unencrypted(
            request.public_key.as_slice(),
            secret,
            request.verify_token.as_slice(),
        )?;
        self.send(&response)?;
        proof {
            if let ServerboundPacket::EncryptionResponse(p) = response {
                assert(sent_bytes(ServerboundPacket::EncryptionResponse(p), old(self).connection().compression())
                    == sent_bytes(response, old(self).connection().compression()));
            }
        }
        self.conn.enable_encryption(secret)
    }
}

/// The bytes of a packet as `to_u8` writes them: its identifier, then its
/// fields.
pub open spec fn packet_bytes(p: ServerboundPacket) -> Seq<u8> {
    varint_bytes(serverbound_packet_key(p).1) + serverbound_packet_body_bytes(p)
}

/// Whether an encoded packet `m` can be framed on `c`: it is short enough,
/// and so is its compressed form when it would be compressed.
pub open spec fn send_fits(c: Connection, m: Seq<u8>) -> bool {
    &&& m.len() <= MAX_FRAME_LEN
    &&& c.compression() is Some && m.len() >= c.compression().unwrap() && m.len() > 0
        ==> zlib_compressed(m).len() <= MAX_FRAME_LEN
}

/// The identifier of the next packet on `c`, when a whole frame is there and
/// decodes to a known packet.
pub open spec fn next_packet_id(c: Connection) -> Option<i32> {
    match parse_frame(c.unread()) {
        FrameParse::Complete(body, _) => match frame_payload(body, c.compression() is Some) {
            Some(payload) => match parse_varint(payload) {
                Some((id, fields)) => if clientbound_packet_known(c.state(), id)
                    && clientbound_packet_body_parses(c.state(), id, fields) {
                    Some(id)
                } else {
                    None
                },
                None => None,
            },
            None => None,
        },
        _ => None,
    }
}

/// Whether handling the packet with identifier `id` by itself may fail on
/// `c`: turning compression on a second time, or echoing a keep-alive when
/// encryption or compression is on, where an outside call decides.
pub open spec fn handling_may_fail(c: Connection, id: i32) -> bool {
    ||| (c.state() == ClientState::Login && id == 0x03 && c.compression() is Some)
    ||| (c.state() == ClientState::Play && id == 0x21 && (c.encrypted() || c.compression() is Some))
}

proof fn lemma_keep_alive_small(id: i64)
    ensures
        packet_bytes(ServerboundPacket::KeepAlive(KeepAlive { id })).len() <= 13,
        serverbound_packet_fits(ServerboundPacket::KeepAlive(KeepAlive { id })),
{
    lemma_varint_round_trip(0x0e, seq![]);
    lemma_be_bytes_len(unsigned_of(id as int, 0x1_0000_0000_0000_0000), 8);
}

proof fn lemma_string_small(cs: Seq<char>)
    requires
        encode_utf8(cs).len() <= MAX_STRING_LEN,
    ensures
        string_bytes(cs).len() <= MAX_STRING_LEN + 5,
        str_fits(cs),
{
    lemma_varint_round_trip(encode_utf8(cs).len() as i32, seq![]);
}

proof fn lemma_complete_shrinks(s: Seq<u8>)
    ensures
        parse_frame(s) is Complete ==> parse_frame(s)->Complete_1.len() < s.len(),
{
    lemma_leb_len_bound(s, 5);
}

/// Where a login stands.
#[derive(Clone, Copy, Debug, PartialEq, Eq, Structural)]
pub enum LoginPhase {
    /// Logging in to an offline server: waiting for the player's abilities;
    /// an encryption request is a violation.
    Offline,
    /// Logging in to an online server: waiting for the encryption request.
    ExpectingEncryptionRequest,
    /// Encryption is set up: waiting for the player's abilities.
    ExpectingPlayerAbilities,
    /// The login is done.
    Ready,
}

/// What the driver of a login must do after a packet.
pub enum LoginAction {
    /// Keep reading.
    Continue,
    /// Join the session and answer this encryption request.
    AnswerEncryption(EncryptionRequest),
    /// The login is done.
    Finished,
    /// The login failed.
    Fail(ProtoError),
}

/// The phase after a packet.
pub open spec fn login_next(phase: LoginPhase, p: ClientboundPacket) -> LoginPhase {
    match phase {
        LoginPhase::Offline => if p is PlayerAbilities {
            LoginPhase::Ready
        } else {
            phase
        },
        LoginPhase::ExpectingEncryptionRequest => if p is EncryptionRequest {
            LoginPhase::ExpectingPlayerAbilities
        } else {
            phase
        },
        LoginPhase::ExpectingPlayerAbilities => if p is PlayerAbilities {
            LoginPhase::Ready
        } else {
            phase
        },
        LoginPhase::Ready => phase,
    }
}

/// Whether a packet makes the login fail: a disconnect before the login is
/// done, an encryption request from an offline server, or a login success
/// from an online server before encryption.
pub open spec fn login_fails(phase: LoginPhase, p: ClientboundPacket) -> bool {
    &&& phase != LoginPhase::Ready
    &&& {
        ||| p is LoginDisconnect
        ||| (phase == LoginPhase::Offline && p is EncryptionRequest)
        ||| (phase == LoginPhase::ExpectingEncryptionRequest && p is LoginSuccess)
    }
}

/// A copy of an encryption request.
fn copy_request(p: &EncryptionRequest) -> (r: EncryptionRequest)
    ensures
        r@ == p@,
{
    EncryptionRequest {
        server_id: p.server_id.clone(),
        public_key: vstd::slice::slice_to_vec(p.public_key.as_slice()),
        verify_token: vstd::slice::slice_to_vec(p.verify_token.as_slice()),
    }
}

/// One step of the login state machine: the phase after `packet`, and what
/// the driver must do.
pub fn login_step(phase: LoginPhase, packet: &ClientboundPacket) -> (r: (LoginPhase, LoginAction))
    ensures
        login_fails(phase, *packet) ==> r.0 == phase && r.1 is Fail && r.1->Fail_0 is ProtocolViolation,
        !login_fails(phase, *packet) ==> r.0 == login_next(phase, *packet),
        !login_fails(phase, *packet) ==> (r.1 is Finished <==> login_next(phase, *packet) == LoginPhase::Ready),
        !login_fails(phase, *packet) ==> !(r.1 is Fail),
        r.1 is AnswerEncryption <==> (phase == LoginPhase::ExpectingEncryptionRequest
            && packet is EncryptionRequest),
        r.1 is AnswerEncryption ==> r.1->AnswerEncryption_0@ == packet->EncryptionRequest_0@,
        phase != LoginPhase::Ready && packet is LoginDisconnect ==> match r.1 {
            LoginAction::Fail(ProtoError::ProtocolViolation { reason }) => reason@
                == packet->LoginDisconnect_0.raw_chat@,
            _ => false,
        },
{
    if phase == LoginPhase::Ready {
        return (phase, LoginAction::Finished);
    }
    match packet {
        ClientboundPacket::LoginDisconnect(p) => {
            (phase, LoginAction::Fail(ProtoError::ProtocolViolation { reason: p.raw_chat.clone() }))
        },
        ClientboundPacket::EncryptionRequest(p) => match phase {
            LoginPhase::Offline => (
                phase,
                LoginAction::Fail(
                    ProtoError::ProtocolViolation { reason: reason("offline server asked for encryption") },
                ),
            ),
            LoginPhase::ExpectingEncryptionRequest => (
                LoginPhase::ExpectingPlayerAbilities,
                LoginAction::AnswerEncryption(copy_request(p)),
            ),
            _ => (phase, LoginAction::Continue),
        },
        ClientboundPacket::LoginSuccess(_) => if phase == LoginPhase::ExpectingEncryptionRequest {
            (
                phase,
                LoginAction::Fail(
                    ProtoError::ProtocolViolation { reason: reason("logged in without encryption") },
                ),
            )
        } else {
            (phase, LoginAction::Continue)
        },
        ClientboundPacket::PlayerAbilities(_) => if phase == LoginPhase::Offline || phase
            == LoginPhase::ExpectingPlayerAbilities {
            (LoginPhase::Ready, LoginAction::Finished)
        } else {
            (phase, LoginAction::Continue)
        },
        _ => (phase, LoginAction::Continue),
    }
}

/// Whether reading the next packet from `c` must fail: the length header is
/// invalid, the frame is incomplete and the idle time ran out, or a whole
/// frame does not unwrap or decode.
pub open spec fn next_read_fails(c: Connection, idle_expired: bool) -> bool {
    match parse_frame(c.unread()) {
        FrameParse::Malformed => true,
        FrameParse::Incomplete => idle_expired,
        FrameParse::Complete(body, _) => match frame_payload(body, c.compression() is Some) {
            Some(payload) => match parse_varint(payload) {
                Some((id, fields)) => !clientbound_packet_known(c.state(), id) || !clientbound_packet_body_parses(c.state(), id, fields),
                None => true,
            },
            None => true,
        },
    }
}

/// The kind of error with which reading the next packet from `c` fails,
/// when it must: `Timeout` for an incomplete frame, `UnknownPacket` for an
/// identifier that is not known in the state, and `Malformed` otherwise.
pub open spec fn next_read_error(c: Connection, e: ProtoError) -> bool {
    match parse_frame(c.unread()) {
        FrameParse::Incomplete => e is Timeout,
        FrameParse::Complete(body, _) => match frame_payload(body, c.compression() is Some) {
            Some(payload) => match parse_varint(payload) {
                Some((id, fields)) => if !clientbound_packet_known(c.state(), id) {
                    match e {
                        ProtoError::UnknownPacket { direction, state, id: i } => direction
                            == Direction::Clientbound && state == c.state() && i == id,
                        _ => false,
                    }
                } else {
                    e is Malformed
                },
                None => e is Malformed,
            },
            None => e is Malformed,
        },
        FrameParse::Malformed => e is Malformed,
    }
}

/// How long a login may take, in milliseconds.
pub const LOGIN_TIMEOUT_MILLIS: u64 = 30_000;

/// The login's time budget: once more than 30 seconds have passed since the
/// login began, a login that is not done fails with `Timeout`.
pub fn login_deadline(phase: LoginPhase, elapsed_millis: u64) -> (r: Option<LoginAction>)
    ensures
        elapsed_millis > LOGIN_TIMEOUT_MILLIS && phase != LoginPhase::Ready ==> r is Some
            && r.unwrap() is Fail && r.unwrap()->Fail_0 is Timeout,
        elapsed_millis <= LOGIN_TIMEOUT_MILLIS || phase == LoginPhase::Ready ==> r is None,
{
    if elapsed_millis > LOGIN_TIMEOUT_MILLIS && phase != LoginPhase::Ready {
        Some(LoginAction::Fail(ProtoError::Timeout))
    } else {
        None
    }
}

/// Two connections agree on everything a reader can observe.
pub open spec fn same_connection(a: Connection, b: Connection) -> bool {
    &&& a.unread() == b.unread()
    &&& a.pending() == b.pending()
    &&& a.state() == b.state()
    &&& a.compression() == b.compression()
    &&& a.cipher_view() == b.cipher_view()
}

/// One packet `p` read from `c0`, leaving `c1`: it arrived at the front of
/// the received bytes and, with automatic handling on, was handled.
pub open spec fn read_step(c0: Connection, auto: bool, p: ClientboundPacket, c1: Connection) -> bool {
    &&& packet_arrived(p, c0.unread(), c1.unread(), c0.compression() is Some, c0.state())
    &&& if auto && is_handled(p) {
        match p {
            ClientboundPacket::LoginSuccess(_) => c1.state() == ClientState::Play
                && c1.compression() == c0.compression() && c1.pending() == c0.pending()
                && c1.cipher_view() == c0.cipher_view(),
            ClientboundPacket::SetCompression(x) => (x.threshold >= 0 ==> c1.compression() == Some(
                x.threshold as usize,
            )) && (x.threshold < 0 ==> c1.compression() == c0.compression()) && c1.state()
                == c0.state() && c1.pending() == c0.pending() && c1.cipher_view() == c0.cipher_view(),
            ClientboundPacket::KeepAlive(x) => c1.pending() == c0.pending() + sealed(
                c0,
                sent_bytes(ServerboundPacket::KeepAlive(KeepAlive { id: x.id }), c0.compression()),
            ) && c1.cipher_view() == sealed_view(
                c0,
                sent_bytes(ServerboundPacket::KeepAlive(KeepAlive { id: x.id }), c0.compression()),
            ) && c1.state() == c0.state() && c1.compression() == c0.compression(),
            _ => true,
        }
    } else {
        c1.state() == c0.state() && c1.compression() == c0.compression() && c1.pending()
            == c0.pending() && c1.cipher_view() == c0.cipher_view()
    }
}

/// The packets `ps` were read one after the other, through the connections
/// `cs`.
pub open spec fn read_chain(cs: Seq<Connection>, ps: Seq<ClientboundPacket>, auto: bool) -> bool {
    &&& cs.len() == ps.len() + 1
    &&& forall|i: int| 0 <= i < ps.len() ==> read_step(cs[i], auto, ps[i], #[trigger] cs[i + 1])
}

/// The packets that are shown to the caller: all of them, or those that were
/// not handled automatically when hiding is on.
pub open spec fn shown(ps: Seq<ClientboundPacket>, hide: bool) -> Seq<ClientboundPacket>
    decreases ps.len(),
{
    if ps.len() == 0 {
        seq![]
    } else if hide && is_handled(ps.last()) {
        shown(ps.drop_last(), hide)
    } else {
        shown(ps.drop_last(), hide).push(ps.last())
    }
}

/// Whether reading the next packet from `c` may fail: the connection is
/// closed, the next read must fail, or automatic handling of the next packet
/// may fail.
pub open spec fn read_may_fail(c: Connection, auto: bool, idle_expired: bool) -> bool {
    ||| c.is_closed()
    ||| next_read_fails(c, idle_expired)
    ||| (auto && next_packet_id(c) is Some && handling_may_fail(c, next_packet_id(c).unwrap()))
}

} // verus!
