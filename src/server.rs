//! The server side of a connection to one client.
use vstd::prelude::*;

use crate::clientbound::{
    clientbound_packet_body_bytes, clientbound_packet_fits, clientbound_packet_key, ClientboundPacket,
};
use crate::client::{same_connection, send_fits};
use crate::connection::{lemma_leb_len_bound, sealed, sealed_view, Connection};
use crate::error::{Direction, ProtoError};
use crate::frame::{frame_bytes, frame_payload, parse_frame, unwrap_frame, FrameParse};
use crate::serverbound::{
    serverbound_packet_body_parses, serverbound_packet_key, serverbound_packet_known,
    serverbound_packet_parsed_from, ServerboundPacket,
};
use crate::wire::{parse_varint, varint_bytes};
use crate::ClientState;

verus! {

/// The next received packet was cut from the front of `unread`, unwrapped and
/// decoded in `state`.
pub open spec fn serverbound_arrived(
    p: ServerboundPacket,
    unread: Seq<u8>,
    rest: Seq<u8>,
    compressed: bool,
    state: ClientState,
) -> bool {
    match parse_frame(unread) {
        FrameParse::Complete(body, after) => after == rest && match frame_payload(body, compressed) {
            Some(payload) => match parse_varint(payload) {
                Some((id, fields)) => serverbound_packet_key(p) == (state, id)
                    && serverbound_packet_parsed_from(p, fields),
                None => false,
            },
            None => false,
        },
        _ => false,
    }
}

/// A connection to one client, seen from the server.
pub struct Server {
    conn: Connection,
}

impl Server {
    pub closed spec fn connection(&self) -> Connection {
        self.conn
    }

    /// A server side of a fresh connection.
    pub fn new() -> (r: Self)
        ensures
            r.connection().state() == ClientState::Handshake,
            r.connection().unread() == Seq::<u8>::empty(),
            r.connection().pending() == Seq::<u8>::empty(),
            r.connection().compression() is None,
            !r.connection().encrypted(),
            !r.connection().is_closed(),
            r.connection().wf(),
    {
        Server { conn: Connection::new() }
    }

    /// The underlying connection.
    pub fn conn(&self) -> (r: &Connection)
        ensures
            *r == self.connection(),
    {
        &self.conn
    }

    /// The underlying connection, to feed it bytes, drain it or change its
    /// state, compression and encryption.
    pub fn conn_mut(&mut self) -> (r: &mut Connection)
        ensures
            *r == old(self).connection(),
            final(self).connection() == *final(r),
    {
        &mut self.conn
    }

    /// Queue a packet for the client. Returns how many bytes are queued.
    pub fn send(&mut self, packet: &ClientboundPacket) -> (r: Result<usize, ProtoError>)
        requires
            old(self).connection().wf(),
        ensures
            old(self).connection().wf() ==> final(self).connection().wf(),
            !clientbound_packet_fits(*packet) ==> r is Err && r.unwrap_err() is InvalidOutbound,
            clientbound_packet_fits(*packet) && !old(self).connection().is_closed()
                && !old(self).connection().encrypted() && send_fits(
                old(self).connection(),
                clientbound_bytes(*packet),
            ) ==> r is Ok,
            r is Ok && !old(self).connection().encrypted() ==> final(self).connection().pending()
                == old(self).connection().pending() + frame_bytes(
                clientbound_bytes(*packet),
                old(self).connection().compression(),
            ),
            r is Ok ==> final(self).connection().pending() == old(self).connection().pending()
                + sealed(
                old(self).connection(),
                frame_bytes(clientbound_bytes(*packet), old(self).connection().compression()),
            ),
            r is Ok ==> final(self).connection().cipher_view() == sealed_view(
                old(self).connection(),
                frame_bytes(clientbound_bytes(*packet), old(self).connection().compression()),
            ),
            r is Err ==> final(self).connection().pending() == old(self).connection().pending(),
            r is Err ==> r.unwrap_err() is Closed || r.unwrap_err() is InvalidOutbound
                || r.unwrap_err() is CryptoError,
            r is Err && !(r.unwrap_err() is CryptoError) ==> final(self).connection().cipher_view()
                == old(self).connection().cipher_view(),
            final(self).connection().state() == old(self).connection().state(),
            final(self).connection().unread() == old(self).connection().unread(),
            final(self).connection().compression() == old(self).connection().compression(),
            final(self).connection().encrypted() == old(self).connection().encrypted(),
            final(self).connection().is_closed() == old(self).connection().is_closed(),
    {
        let bytes = packet.to_u8()?;
        self.conn.send_bytes(bytes.as_slice())
    }

    /// Read at most one packet from the received bytes. `None` means a whole
    /// packet has not arrived yet.
    pub fn read_packet(&mut self, idle_expired: bool) -> (r: Result<Option<ServerboundPacket>, ProtoError>)
        requires
            old(self).connection().wf(),
        ensures
            r is Err ==> old(self).connection().is_closed() || serverbound_next_read_fails(
                old(self).connection(),
                idle_expired,
            ),
            r is Ok && r.unwrap() is Some ==> serverbound_read_step(
                old(self).connection(),
                r.unwrap().unwrap(),
                final(self).connection(),
            ),
            r is Ok && r.unwrap() is None ==> same_connection(old(self).connection(), final(self).connection()),
            old(self).connection().is_closed() ==> r is Err && r.unwrap_err() is Closed,
            !old(self).connection().is_closed() && serverbound_next_read_fails(old(self).connection(), idle_expired)
                ==> r is Err && serverbound_next_read_error(old(self).connection(), r.unwrap_err()),
            !old(self).connection().is_closed() && parse_frame(old(self).connection().unread())
                is Incomplete && idle_expired ==> final(self).connection().is_closed(),
            r is Err ==> final(self).connection().state() == old(self).connection().state()
                && final(self).connection().compression() == old(self).connection().compression(),
            r is Err && !(r.unwrap_err() is CryptoError) ==> final(self).connection().cipher_view()
                == old(self).connection().cipher_view(),
            old(self).connection().wf() ==> final(self).connection().wf(),
            r is Ok && r.unwrap() is Some ==> serverbound_arrived(
                r.unwrap().unwrap(),
                old(self).connection().unread(),
                final(self).connection().unread(),
                old(self).connection().compression() is Some,
                old(self).connection().state(),
            ),
            !old(self).connection().is_closed() && next_serverbound_decodes(old(self).connection())
                ==> r is Ok && r.unwrap() is Some,
            !old(self).connection().is_closed() && parse_frame(old(self).connection().unread())
                is Incomplete && !idle_expired ==> r is Ok && r.unwrap() is None,
            parse_frame(old(self).connection().unread()) is Malformed ==> r is Err,
            r is Ok && r.unwrap() is None ==> parse_frame(old(self).connection().unread()) is Incomplete
                && final(self).connection().unread() == old(self).connection().unread()
                && !final(self).connection().is_closed(),
            final(self).connection().state() == old(self).connection().state(),
            final(self).connection().compression() == old(self).connection().compression(),
            final(self).connection().pending() == old(self).connection().pending(),
            final(self).connection().encrypted() == old(self).connection().encrypted(),
            final(self).connection().cipher_view() == old(self).connection().cipher_view(),
    {
        let compressed = self.conn.compression_threshold().is_some();
        let state = self.conn.clientstate();
        let frame = match self.conn.next_frame(idle_expired)? {
            Some(f) => f,
            None => return Ok(None),
        };
        let payload = unwrap_frame(frame, compressed)?;
        let packet = ServerboundPacket::deserialize(payload.as_slice(), state)?;
        Ok(Some(packet))
    }

    /// Read every packet that has fully arrived, in order.
    pub fn read(&mut self, idle_expired: bool) -> (r: Result<Vec<ServerboundPacket>, ProtoError>)
        requires
            old(self).connection().wf(),
        ensures
            old(self).connection().wf() ==> final(self).connection().wf(),
            r is Ok ==> parse_frame(final(self).connection().unread()) is Incomplete,
            r is Ok ==> exists|cs: Seq<Connection>, ps: Seq<ServerboundPacket>|
                #[trigger] serverbound_read_chain(cs, ps) && ps == r.unwrap()@ && cs[0] == old(self).connection() && same_connection(cs.last(), final(self).connection()),
            r is Err ==> exists|cs: Seq<Connection>, ps: Seq<ServerboundPacket>|
                #[trigger] serverbound_read_chain(cs, ps) && cs[0] == old(self).connection() && (
                cs.last().is_closed() || serverbound_next_read_fails(cs.last(), idle_expired)),
            !old(self).connection().is_closed() && parse_frame(old(self).connection().unread())
                is Incomplete && !idle_expired ==> r is Ok && r.unwrap()@.len() == 0
                && final(self).connection().unread() == old(self).connection().unread(),
            final(self).connection().state() == old(self).connection().state(),
            final(self).connection().pending() == old(self).connection().pending(),
    {
        let mut out: Vec<ServerboundPacket> = Vec::new();
        let ghost mut cs: Seq<Connection> = seq![self.conn];
        loop
            invariant
                self.conn.wf(),
                self.conn.state() == old(self).conn.state(),
                self.conn.pending() == old(self).conn.pending(),
                !old(self).conn.is_closed() && parse_frame(old(self).conn.unread()) is Incomplete
                    && !idle_expired ==> out@.len() == 0 && self.conn.unread() == old(self).conn.unread()
                    && !self.conn.is_closed(),
                serverbound_read_chain(cs, out@),
                cs[0] == old(self).conn,
                cs.last() == self.conn,
            decreases self.conn.unread().len(),
        {
            let before = Ghost(self.conn.unread());
            let ghost c0 = self.conn;
            match self.read_packet(idle_expired) {
                Ok(Some(p)) => {
                    proof {
                        lemma_leb_len_bound(before@, 5);
                        let cs2 = cs.push(self.conn);
                        let ps2 = out@.push(p);
                        assert forall|i: int| 0 <= i < ps2.len() implies serverbound_read_step(
                            cs2[i],
                            ps2[i],
                            cs2[i + 1],
                        ) by {
                            if i < out@.len() {
                                assert(cs2[i] == cs[i] && cs2[i + 1] == cs[i + 1] && ps2[i] == out@[i]);
                            }
                        }
                        cs = cs2;
                    }
                    out.push(p);
                },
                Ok(None) => {
                    proof {
                        assert(serverbound_read_chain(cs, out@) && cs[0] == old(self).connection()
                            && same_connection(cs.last(), self.conn));
                    }
                    return Ok(out);
                },
                Err(e) => {
                    proof {
                        assert(serverbound_read_chain(cs, out@) && cs[0] == old(self).connection()
                            && (cs.last().is_closed() || serverbound_next_read_fails(cs.last(), idle_expired)));
                    }
                    return Err(e);
                },
            }
        }
    }
}

/// One packet `p` read from `c0`, leaving `c1`: it arrived at the front of
/// the received bytes, and nothing else changed.
pub open spec fn serverbound_read_step(c0: Connection, p: ServerboundPacket, c1: Connection) -> bool {
    &&& serverbound_arrived(p, c0.unread(), c1.unread(), c0.compression() is Some, c0.state())
    &&& c1.state() == c0.state() && c1.compression() == c0.compression() && c1.pending()
        == c0.pending() && c1.cipher_view() == c0.cipher_view()
}

/// The packets `ps` were read one after the other, through the connections
/// `cs`.
pub open spec fn serverbound_read_chain(cs: Seq<Connection>, ps: Seq<ServerboundPacket>) -> bool {
    &&& cs.len() == ps.len() + 1
    &&& forall|i: int| 0 <= i < ps.len() ==> serverbound_read_step(cs[i], ps[i], #[trigger] cs[i + 1])
}

/// The bytes of a packet as `to_u8` writes them: its identifier, then its
/// fields.
pub open spec fn clientbound_bytes(p: ClientboundPacket) -> Seq<u8> {
    varint_bytes(clientbound_packet_key(p).1) + clientbound_packet_body_bytes(p)
}

/// Whether a whole frame is at the front of `c` and decodes to a known
/// serverbound packet.
pub open spec fn next_serverbound_decodes(c: Connection) -> bool {
    match parse_frame(c.unread()) {
        FrameParse::Complete(body, _) => match frame_payload(body, c.compression() is Some) {
            Some(payload) => match parse_varint(payload) {
                Some((id, fields)) => serverbound_packet_known(c.state(), id)
                    && serverbound_packet_body_parses(c.state(), id, fields),
                None => false,
            },
            None => false,
        },
        _ => false,
    }
}

/// Whether reading the next packet from `c` must fail: the length header is
/// invalid, the frame is incomplete and the idle time ran out, or a whole
/// frame does not unwrap or decode.
pub open spec fn serverbound_next_read_fails(c: Connection, idle_expired: bool) -> bool {
    match parse_frame(c.unread()) {
        FrameParse::Malformed => true,
        FrameParse::Incomplete => idle_expired,
        FrameParse::Complete(body, _) => match frame_payload(body, c.compression() is Some) {
            Some(payload) => match parse_varint(payload) {
                Some((id, fields)) => !serverbound_packet_known(c.state(), id) || !serverbound_packet_body_parses(c.state(), id, fields),
                None => true,
            },
            None => true,
        },
    }
}

/// The kind of error with which reading the next packet from `c` fails,
/// when it must: `Timeout` for an incomplete frame, `UnknownPacket` for an
/// identifier that is not known in the state, and `Malformed` otherwise.
pub open spec fn serverbound_next_read_error(c: Connection, e: ProtoError) -> bool {
    match parse_frame(c.unread()) {
        FrameParse::Incomplete => e is Timeout,
        FrameParse::Complete(body, _) => match frame_payload(body, c.compression() is Some) {
            Some(payload) => match parse_varint(payload) {
                Some((id, fields)) => if !serverbound_packet_known(c.state(), id) {
                    match e {
                        ProtoError::UnknownPacket { direction, state, id: i } => direction
                            == Direction::Serverbound && state == c.state() && i == id,
                        _ => false,
                    }
                } else {
                    e is Malformed
                },
                None => e is Malformed,
            },
            None => e is Malformed,
        },
        FrameParse::Malformed => e is Malformed,
    }
}

} // verus!
