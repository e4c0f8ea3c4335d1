//! The packets a client sends to a server.
use vstd::prelude::*;

use crate::clientbound::{opt_str, str_fits};
use crate::error::{reads_as_view, reason, Direction, ProtoError};
use crate::read::{
    read_bool, read_i64, read_prefixed_bytearray, read_String, read_u16, read_u32, read_u64,
    read_varint,
};
use crate::reader::Reader;
use crate::wire::{
    be_bytes, bool_bytes, parse_bool, parse_i64, parse_prefixed_bytes, parse_string, parse_u16,
    parse_u32, parse_u64, parse_varint, prefixed_bytes, string_bytes, unsigned_of, varint_bytes,
};
use crate::wire::{
    lemma_bool_round_trip, lemma_string_round_trip, lemma_u32_round_trip, lemma_u64_round_trip,
    lemma_varint_round_trip, MAX_STRING_LEN,
};
use crate::write::{
    write_bool, write_i64, write_prefixed_bytearray, write_String, write_u16, write_u32,
    write_u64, write_varint,
};
use crate::bindings::{rsa_decrypted, rsa_private_decrypt};
use crate::yggdrasil::{rsa_encrypt, RSA_CIPHERTEXT_LEN};
use crate::ClientState;
use vstd::utf8::encode_utf8;

verus! {

/// The first packet of a connection: protocol version, the address and port the client used, and the state to move to (1 status, 2 login).
#[derive(Clone, Debug)]
pub struct Handshake {
    pub protocol_version: i32,
    pub server_address: String,
    pub server_port: u16,
    pub next_state: i32,
}

impl View for Handshake {
    type V = (i32, Seq<char>, u16, i32);

    open spec fn view(&self) -> (i32, Seq<char>, u16, i32) {
        (self.protocol_version, self.server_address@, self.server_port, self.next_state)
    }
}

/// The fields of a `Handshake` at the front of `s`, and what follows them.
pub open spec fn parse_handshake(s: Seq<u8>) -> Option<((i32, Seq<char>, u16, i32), Seq<u8>)> {
    match parse_varint(s) {
        Some((a0, s1)) => match parse_string(s1) {
            Some((a1, s2)) => match parse_u16(s2) {
                Some((a2, s3)) => match parse_varint(s3) {
                    Some((a3, s4)) => Some(((a0, a1, a2, a3), s4)),
                    None => None,
                },
                None => None,
            },
            None => None,
        },
        None => None,
    }
}

/// The wire form of the fields of a `Handshake`.
pub open spec fn handshake_bytes(v: (i32, Seq<char>, u16, i32)) -> Seq<u8> {
    varint_bytes(v.0) + string_bytes(v.1) + be_bytes(v.2 as nat, 2) + varint_bytes(v.3)
}

/// Whether the fields of a `Handshake` can be written.
pub open spec fn handshake_fits(v: (i32, Seq<char>, u16, i32)) -> bool {
    encode_utf8(v.1).len() <= i32::MAX
}

impl Handshake {
    /// Read the fields of a `Handshake` packet.
    pub fn deserialize(rd: &mut Reader) -> (r: Result<Handshake, ProtoError>)
        ensures
            reads_as_view(r, parse_handshake(old(rd).rest()), final(rd).rest()),
    {
        let protocol_version = read_varint(rd)?;
        let server_address = read_String(rd)?;
        let server_port = read_u16(rd)?;
        let next_state = read_varint(rd)?;
        Ok(Handshake { protocol_version, server_address, server_port, next_state })
    }

    /// Write the fields of this packet.
    pub fn write(&self, w: &mut Vec<u8>) -> (r: Result<(), ProtoError>)
        ensures
            r is Ok <==> handshake_fits(self@),
            r is Ok ==> final(w)@ == old(w)@ + handshake_bytes(self@),
            r is Err ==> r.unwrap_err() is InvalidOutbound,
    {
        write_varint(&self.protocol_version, w)?;
        write_String(self.server_address.as_str(), w)?;
        write_u16(&self.server_port, w)?;
        write_varint(&self.next_state, w)?;
        assert(w@ =~= old(w)@ + handshake_bytes(self@));
        Ok(())
    }
}

/// Reading the fields of a `Handshake` back gives the value that was written,
/// when the strings are short enough to be read.
pub proof fn lemma_handshake_round_trip(v: (i32, Seq<char>, u16, i32), rest: Seq<u8>)
    requires
        handshake_fits(v),
        encode_utf8(v.1).len() <= crate::wire::MAX_STRING_LEN,
    ensures
        parse_handshake(handshake_bytes(v) + rest) == Some((v, rest)),
{
    let t4 = rest;
    let t3 = varint_bytes(v.3) + t4;
    let t2 = be_bytes(v.2 as nat, 2) + t3;
    let t1 = string_bytes(v.1) + t2;
    let t0 = varint_bytes(v.0) + t1;
    assert(handshake_bytes(v) + rest =~= t0);
    crate::wire::lemma_varint_round_trip(v.0, t1);
    crate::wire::lemma_string_round_trip(v.1, t2);
    crate::wire::lemma_u16_round_trip(v.2, t3);
    crate::wire::lemma_varint_round_trip(v.3, t4);
}

/// A status ping with a payload to echo.
#[derive(Clone, Debug)]
pub struct StatusPing {
    pub payload: i64,
}

impl View for StatusPing {
    type V = (i64,);

    open spec fn view(&self) -> (i64,) {
        (self.payload,)
    }
}

/// The fields of a `StatusPing` at the front of `s`, and what follows them.
pub open spec fn parse_status_ping(s: Seq<u8>) -> Option<((i64,), Seq<u8>)> {
    match parse_i64(s) {
        Some((a0, s1)) => Some(((a0,), s1)),
        None => None,
    }
}

/// The wire form of the fields of a `StatusPing`.
pub open spec fn status_ping_bytes(v: (i64,)) -> Seq<u8> {
    be_bytes(unsigned_of(v.0 as int, 0x1_0000_0000_0000_0000), 8)
}

impl StatusPing {
    /// Read the fields of a `StatusPing` packet.
    pub fn deserialize(rd: &mut Reader) -> (r: Result<StatusPing, ProtoError>)
        ensures
            reads_as_view(r, parse_status_ping(old(rd).rest()), final(rd).rest()),
    {
        let payload = read_i64(rd)?;
        Ok(StatusPing { payload })
    }

    /// Write the fields of this packet.
    pub fn write(&self, w: &mut Vec<u8>) -> (r: Result<(), ProtoError>)
        ensures
            r is Ok,
            r is Ok ==> final(w)@ == old(w)@ + status_ping_bytes(self@),
            r is Err ==> r.unwrap_err() is InvalidOutbound,
    {
        write_i64(&self.payload, w)?;
        assert(w@ =~= old(w)@ + status_ping_bytes(self@));
        Ok(())
    }
}

/// Reading the fields of a `StatusPing` back gives the value that was written.
pub proof fn lemma_status_ping_round_trip(v: (i64,), rest: Seq<u8>)
    ensures
        parse_status_ping(status_ping_bytes(v) + rest) == Some((v, rest)),
{
    let t1 = rest;
    let t0 = be_bytes(unsigned_of(v.0 as int, 0x1_0000_0000_0000_0000), 8) + t1;
    assert(status_ping_bytes(v) + rest =~= t0);
    crate::wire::lemma_i64_round_trip(v.0, t1);
}

/// Start a login with this player name.
#[derive(Clone, Debug)]
pub struct LoginStart {
    pub name: String,
}

impl View for LoginStart {
    type V = (Seq<char>,);

    open spec fn view(&self) -> (Seq<char>,) {
        (self.name@,)
    }
}

/// The fields of a `LoginStart` at the front of `s`, and what follows them.
pub open spec fn parse_login_start(s: Seq<u8>) -> Option<((Seq<char>,), Seq<u8>)> {
    match parse_string(s) {
        Some((a0, s1)) => Some(((a0,), s1)),
        None => None,
    }
}

/// The wire form of the fields of a `LoginStart`.
pub open spec fn login_start_bytes(v: (Seq<char>,)) -> Seq<u8> {
    string_bytes(v.0)
}

/// Whether the fields of a `LoginStart` can be written.
pub open spec fn login_start_fits(v: (Seq<char>,)) -> bool {
    encode_utf8(v.0).len() <= i32::MAX
}

impl LoginStart {
    /// Read the fields of a `LoginStart` packet.
    pub fn deserialize(rd: &mut Reader) -> (r: Result<LoginStart, ProtoError>)
        ensures
            reads_as_view(r, parse_login_start(old(rd).rest()), final(rd).rest()),
    {
        let name = read_String(rd)?;
        Ok(LoginStart { name })
    }

    /// Write the fields of this packet.
    pub fn write(&self, w: &mut Vec<u8>) -> (r: Result<(), ProtoError>)
        ensures
            r is Ok <==> login_start_fits(self@),
            r is Ok ==> final(w)@ == old(w)@ + login_start_bytes(self@),
            r is Err ==> r.unwrap_err() is InvalidOutbound,
    {
        write_String(self.name.as_str(), w)?;
        assert(w@ =~= old(w)@ + login_start_bytes(self@));
        Ok(())
    }
}

/// Reading the fields of a `LoginStart` back gives the value that was written,
/// when the strings are short enough to be read.
pub proof fn lemma_login_start_round_trip(v: (Seq<char>,), rest: Seq<u8>)
    requires
        login_start_fits(v),
        encode_utf8(v.0).len() <= crate::wire::MAX_STRING_LEN,
    ensures
        parse_login_start(login_start_bytes(v) + rest) == Some((v, rest)),
{
    let t1 = rest;
    let t0 = string_bytes(v.0) + t1;
    assert(login_start_bytes(v) + rest =~= t0);
    crate::wire::lemma_string_round_trip(v.0, t1);
}

/// The shared secret and the verify token, both encrypted with the public key of the server.
#[derive(Clone, Debug)]
pub struct EncryptionResponse {
    pub shared_secret: Vec<u8>,
    pub verify_token: Vec<u8>,
}

impl View for EncryptionResponse {
    type V = (Seq<u8>, Seq<u8>);

    open spec fn view(&self) -> (Seq<u8>, Seq<u8>) {
        (self.shared_secret@, self.verify_token@)
    }
}

/// The fields of a `EncryptionResponse` at the front of `s`, and what follows them.
pub open spec fn parse_encryption_response(s: Seq<u8>) -> Option<((Seq<u8>, Seq<u8>), Seq<u8>)> {
    match parse_prefixed_bytes(s) {
        Some((a0, s1)) => match parse_prefixed_bytes(s1) {
            Some((a1, s2)) => Some(((a0, a1), s2)),
            None => None,
        },
        None => None,
    }
}

/// The wire form of the fields of a `EncryptionResponse`.
pub open spec fn encryption_response_bytes(v: (Seq<u8>, Seq<u8>)) -> Seq<u8> {
    prefixed_bytes(v.0) + prefixed_bytes(v.1)
}

/// Whether the fields of a `EncryptionResponse` can be written.
pub open spec fn encryption_response_fits(v: (Seq<u8>, Seq<u8>)) -> bool {
    v.0.len() <= i32::MAX && v.1.len() <= i32::MAX
}

impl EncryptionResponse {
    /// Read the fields of a `EncryptionResponse` packet.
    pub fn deserialize(rd: &mut Reader) -> (r: Result<EncryptionResponse, ProtoError>)
        ensures
            reads_as_view(r, parse_encryption_response(old(rd).rest()), final(rd).rest()),
    {
        let shared_secret = read_prefixed_bytearray(rd)?;
        let verify_token = read_prefixed_bytearray(rd)?;
        Ok(EncryptionResponse { shared_secret, verify_token })
    }

    /// Write the fields of this packet.
    pub fn write(&self, w: &mut Vec<u8>) -> (r: Result<(), ProtoError>)
        ensures
            r is Ok <==> encryption_response_fits(self@),
            r is Ok ==> final(w)@ == old(w)@ + encryption_response_bytes(self@),
            r is Err ==> r.unwrap_err() is InvalidOutbound,
    {
        write_prefixed_bytearray(self.shared_secret.as_slice(), w)?;
        write_prefixed_bytearray(self.verify_token.as_slice(), w)?;
        assert(w@ =~= old(w)@ + encryption_response_bytes(self@));
        Ok(())
    }
}

/// Reading the fields of a `EncryptionResponse` back gives the value that was written.
pub proof fn lemma_encryption_response_round_trip(v: (Seq<u8>, Seq<u8>), rest: Seq<u8>)
    requires
        encryption_response_fits(v),
    ensures
        parse_encryption_response(encryption_response_bytes(v) + rest) == Some((v, rest)),
{
    let t2 = rest;
    let t1 = prefixed_bytes(v.1) + t2;
    let t0 = prefixed_bytes(v.0) + t1;
    assert(encryption_response_bytes(v) + rest =~= t0);
    crate::wire::lemma_prefixed_bytes_round_trip(v.0, t1);
    crate::wire::lemma_prefixed_bytes_round_trip(v.1, t2);
}

/// A chat message or command typed by the player.
#[derive(Clone, Debug)]
pub struct ChatMessage {
    pub message: String,
}

impl View for ChatMessage {
    type V = (Seq<char>,);

    open spec fn view(&self) -> (Seq<char>,) {
        (self.message@,)
    }
}

/// The fields of a `ChatMessage` at the front of `s`, and what follows them.
pub open spec fn parse_chat_message(s: Seq<u8>) -> Option<((Seq<char>,), Seq<u8>)> {
    match parse_string(s) {
        Some((a0, s1)) => Some(((a0,), s1)),
        None => None,
    }
}

/// The wire form of the fields of a `ChatMessage`.
pub open spec fn chat_message_bytes(v: (Seq<char>,)) -> Seq<u8> {
    string_bytes(v.0)
}

/// Whether the fields of a `ChatMessage` can be written.
pub open spec fn chat_message_fits(v: (Seq<char>,)) -> bool {
    encode_utf8(v.0).len() <= i32::MAX
}

impl ChatMessage {
    /// Read the fields of a `ChatMessage` packet.
    pub fn deserialize(rd: &mut Reader) -> (r: Result<ChatMessage, ProtoError>)
        ensures
            reads_as_view(r, parse_chat_message(old(rd).rest()), final(rd).rest()),
    {
        let message = read_String(rd)?;
        Ok(ChatMessage { message })
    }

    /// Write the fields of this packet.
    pub fn write(&self, w: &mut Vec<u8>) -> (r: Result<(), ProtoError>)
        ensures
            r is Ok <==> chat_message_fits(self@),
            r is Ok ==> final(w)@ == old(w)@ + chat_message_bytes(self@),
            r is Err ==> r.unwrap_err() is InvalidOutbound,
    {
        write_String(self.message.as_str(), w)?;
        assert(w@ =~= old(w)@ + chat_message_bytes(self@));
        Ok(())
    }
}

/// Reading the fields of a `ChatMessage` back gives the value that was written,
/// when the strings are short enough to be read.
pub proof fn lemma_chat_message_round_trip(v: (Seq<char>,), rest: Seq<u8>)
    requires
        chat_message_fits(v),
        encode_utf8(v.0).len() <= crate::wire::MAX_STRING_LEN,
    ensures
        parse_chat_message(chat_message_bytes(v) + rest) == Some((v, rest)),
{
    let t1 = rest;
    let t0 = string_bytes(v.0) + t1;
    assert(chat_message_bytes(v) + rest =~= t0);
    crate::wire::lemma_string_round_trip(v.0, t1);
}

/// The echo of a keep-alive.
#[derive(Clone, Debug)]
pub struct KeepAlive {
    pub id: i64,
}

impl View for KeepAlive {
    type V = (i64,);

    open spec fn view(&self) -> (i64,) {
        (self.id,)
    }
}

/// The fields of a `KeepAlive` at the front of `s`, and what follows them.
pub open spec fn parse_keep_alive(s: Seq<u8>) -> Option<((i64,), Seq<u8>)> {
    match parse_i64(s) {
        Some((a0, s1)) => Some(((a0,), s1)),
        None => None,
    }
}

/// The wire form of the fields of a `KeepAlive`.
pub open spec fn keep_alive_bytes(v: (i64,)) -> Seq<u8> {
    be_bytes(unsigned_of(v.0 as int, 0x1_0000_0000_0000_0000), 8)
}

impl KeepAlive {
    /// Read the fields of a `KeepAlive` packet.
    pub fn deserialize(rd: &mut Reader) -> (r: Result<KeepAlive, ProtoError>)
        ensures
            reads_as_view(r, parse_keep_alive(old(rd).rest()), final(rd).rest()),
    {
        let id = read_i64(rd)?;
        Ok(KeepAlive { id })
    }

    /// Write the fields of this packet.
    pub fn write(&self, w: &mut Vec<u8>) -> (r: Result<(), ProtoError>)
        ensures
            r is Ok,
            r is Ok ==> final(w)@ == old(w)@ + keep_alive_bytes(self@),
            r is Err ==> r.unwrap_err() is InvalidOutbound,
    {
        write_i64(&self.id, w)?;
        assert(w@ =~= old(w)@ + keep_alive_bytes(self@));
        Ok(())
    }
}

/// Reading the fields of a `KeepAlive` back gives the value that was written.
pub proof fn lemma_keep_alive_round_trip(v: (i64,), rest: Seq<u8>)
    ensures
        parse_keep_alive(keep_alive_bytes(v) + rest) == Some((v, rest)),
{
    let t1 = rest;
    let t0 = be_bytes(unsigned_of(v.0 as int, 0x1_0000_0000_0000_0000), 8) + t1;
    assert(keep_alive_bytes(v) + rest =~= t0);
    crate::wire::lemma_i64_round_trip(v.0, t1);
}

impl Handshake {
    /// The state the handshake asks for, if its value names one.
    pub fn get_next_clientstate(&self) -> (r: Option<ClientState>)
        ensures
            self.next_state == 1 ==> r == Some(ClientState::Status),
            self.next_state == 2 ==> r == Some(ClientState::Login),
            self.next_state != 1 && self.next_state != 2 ==> r is None,
    {
        match self.next_state {
            1 => Some(ClientState::Status),
            2 => Some(ClientState::Login),
            _ => None,
        }
    }
}

impl EncryptionResponse {
    /// The shared secret, decrypted with the server's DER-encoded private
    /// key; it must be 16 bytes long.
    pub fn get_decrypted_shared_secret(&self, key_der: &[u8]) -> (r: Result<[u8; 16], ProtoError>)
        ensures
            r is Ok <==> self.shared_secret@.len() <= i32::MAX && rsa_decrypted(
                key_der@,
                self.shared_secret@,
            ) is Some && rsa_decrypted(key_der@, self.shared_secret@).unwrap().len() == 16,
            r is Ok ==> rsa_decrypted(key_der@, self.shared_secret@) == Some(r.unwrap()@),
            r is Err ==> r.unwrap_err() is CryptoError,
    {
        if self.shared_secret.len() > i32::MAX as usize {
            return Err(ProtoError::CryptoError);
        }
        let plain = match rsa_private_decrypt(key_der, self.shared_secret.as_slice()) {
            Some(p) => p,
            None => return Err(ProtoError::CryptoError),
        };
        if plain.len() != 16 {
            return Err(ProtoError::CryptoError);
        }
        let mut secret: [u8; 16] = [0; 16];
        let mut i: usize = 0;
        while i < 16
            invariant
                plain.len() == 16,
                i <= 16,
                forall|j: int| 0 <= j < i ==> secret[j] == plain@[j],
            decreases 16 - i,
        {
            secret[i] = plain[i];
            i = i + 1;
        }
        assert(secret@ =~= plain@);
        Ok(secret)
    }

    /// The verify token, decrypted with the server's DER-encoded private key.
    pub fn get_decrypted_verify_token(&self, key_der: &[u8]) -> (r: Result<Vec<u8>, ProtoError>)
        ensures
            r is Ok <==> self.verify_token@.len() <= i32::MAX && rsa_decrypted(
                key_der@,
                self.verify_token@,
            ) is Some,
            r is Ok ==> rsa_decrypted(key_der@, self.verify_token@) == Some(r.unwrap()@),
            r is Err ==> r.unwrap_err() is CryptoError,
    {
        if self.verify_token.len() > i32::MAX as usize {
            return Err(ProtoError::CryptoError);
        }
        match rsa_private_decrypt(key_der, self.verify_token.as_slice()) {
            Some(p) => Ok(p),
            None => Err(ProtoError::CryptoError),
        }
    }

    /// Build the response from the plain shared secret and verify token, each
    /// encrypted with the server's DER-encoded public key.
    pub fn new_unencrypted(key: &[u8], shared_secret: &[u8], verify_token: &[u8]) -> (r: Result<
        ServerboundPacket,
        ProtoError,
    >)
        ensures
            r is Ok ==> match r.unwrap() {
                ServerboundPacket::EncryptionResponse(p) => p.shared_secret@.len()
                    == RSA_CIPHERTEXT_LEN && p.verify_token@.len() == RSA_CIPHERTEXT_LEN,
                _ => false,
            },
            r is Err ==> r.unwrap_err() is CryptoError,
    {
        let ss = rsa_encrypt(key, shared_secret)?;
        let vt = rsa_encrypt(key, verify_token)?;
        Ok(ServerboundPacket::EncryptionResponse(EncryptionResponse { shared_secret: ss, verify_token: vt }))
    }
}

/// A status request; it has no fields.
#[derive(Clone, Debug)]
pub struct StatusRequest {}

impl View for StatusRequest {
    type V = ();

    open spec fn view(&self) -> () {
        ()
    }
}

/// The fields of the packet at the front of `s`, and what follows them.
pub open spec fn parse_status_request(s: Seq<u8>) -> Option<((), Seq<u8>)> {
    Some(((), s))
}

/// The wire form of the packet's fields.
pub open spec fn status_request_bytes(v: ()) -> Seq<u8> {
    seq![]
}

impl StatusRequest {
    /// Read the fields of a `StatusRequest` packet: there are none.
    pub fn deserialize(rd: &mut Reader) -> (r: Result<StatusRequest, ProtoError>)
        ensures
            reads_as_view(r, parse_status_request(old(rd).rest()), final(rd).rest()),
    {
        Ok(StatusRequest {})
    }

    /// Write the fields of this packet: there are none.
    pub fn write(&self, w: &mut Vec<u8>) -> (r: Result<(), ProtoError>)
        ensures
            r is Ok,
            final(w)@ == old(w)@ + status_request_bytes(self@),
    {
        assert(w@ =~= old(w)@ + status_request_bytes(self@));
        Ok(())
    }
}

// ---- TabComplete ----

/// A tab-completion request, optionally with the block the player looks at
/// (a packed position).
#[derive(Clone, Debug)]
pub struct TabComplete {
    pub text: String,
    pub assume_command: bool,
    pub looked_at_block: Option<u64>,
}

impl View for TabComplete {
    type V = (Seq<char>, bool, Option<u64>);

    open spec fn view(&self) -> Self::V {
        (self.text@, self.assume_command, self.looked_at_block)
    }
}

/// The fields of the packet at the front of `s`, and what follows them.
pub open spec fn parse_tab_complete(s: Seq<u8>) -> Option<((Seq<char>, bool, Option<u64>), Seq<u8>)> {
    match parse_string(s) {
        Some((t, s1)) => match parse_bool(s1) {
            Some((a, s2)) => match parse_bool(s2) {
                Some((h, s3)) => if h {
                    match parse_u64(s3) {
                        Some((p, s4)) => Some(((t, a, Some(p)), s4)),
                        None => None,
                    }
                } else {
                    Some(((t, a, None), s3))
                },
                None => None,
            },
            None => None,
        },
        None => None,
    }
}

/// The wire form of the packet's fields.
pub open spec fn tab_complete_bytes(v: (Seq<char>, bool, Option<u64>)) -> Seq<u8> {
    string_bytes(v.0) + bool_bytes(v.1) + match v.2 {
        Some(p) => bool_bytes(true) + be_bytes(p as nat, 8),
        None => bool_bytes(false),
    }
}

/// Whether the packet can be written: its fields agree and fit.
pub open spec fn tab_complete_fits(v: (Seq<char>, bool, Option<u64>)) -> bool {
    str_fits(v.0)
}

impl TabComplete {
    /// Read the fields of a `TabComplete` packet.
    pub fn deserialize(rd: &mut Reader) -> (r: Result<TabComplete, ProtoError>)
        ensures
            reads_as_view(r, parse_tab_complete(old(rd).rest()), final(rd).rest()),
    {
        let text = read_String(rd)?;
        let assume_command = read_bool(rd)?;
        let has_block = read_bool(rd)?;
        let looked_at_block = if has_block {
            Some(read_u64(rd)?)
        } else {
            None
        };
        Ok(TabComplete { text, assume_command, looked_at_block })
    }

    /// Write the fields of this packet.
    pub fn write(&self, w: &mut Vec<u8>) -> (r: Result<(), ProtoError>)
        ensures
            r is Ok <==> tab_complete_fits(self@),
            r is Ok ==> final(w)@ == old(w)@ + tab_complete_bytes(self@),
            r is Err ==> r.unwrap_err() is InvalidOutbound,
    {
        write_String(self.text.as_str(), w)?;
        write_bool(&self.assume_command, w)?;
        match self.looked_at_block {
            Some(p) => {
                write_bool(&true, w)?;
                write_u64(&p, w)?;
            },
            None => {
                write_bool(&false, w)?;
            },
        }
        assert(w@ =~= old(w)@ + tab_complete_bytes(self@));
        Ok(())
    }
}

// ---- UseEntity ----

/// Interact with (0), attack (1) or interact at a point of (2) an entity.
/// Action 2 carries the point (`f32` bit patterns); actions 0 and 2 carry the
/// hand.
#[derive(Clone, Debug)]
pub struct UseEntity {
    pub target: i32,
    pub action: i32,
    pub location: Option<(u32, u32, u32)>,
    pub hand: Option<i32>,
}

impl View for UseEntity {
    type V = (i32, i32, Option<(u32, u32, u32)>, Option<i32>);

    open spec fn view(&self) -> Self::V {
        (self.target, self.action, self.location, self.hand)
    }
}

/// The fields of the packet at the front of `s`, and what follows them.
pub open spec fn parse_use_entity(s: Seq<u8>) -> Option<((i32, i32, Option<(u32, u32, u32)>, Option<i32>), Seq<u8>)> {
    match parse_varint(s) {
        Some((t, s1)) => match parse_varint(s1) {
            Some((a, s2)) => {
                let loc = if a == 2 {
                    match parse_u32(s2) {
                        Some((x, s3)) => match parse_u32(s3) {
                            Some((y, s4)) => match parse_u32(s4) {
                                Some((z, s5)) => Some((Some((x, y, z)), s5)),
                                None => None,
                            },
                            None => None,
                        },
                        None => None,
                    }
                } else {
                    Some((None, s2))
                };
                match loc {
                    Some((l, s3)) => if a == 0 || a == 2 {
                        match parse_varint(s3) {
                            Some((h, s4)) => Some(((t, a, l, Some(h)), s4)),
                            None => None,
                        }
                    } else {
                        Some(((t, a, l, None), s3))
                    },
                    None => None,
                }
            },
            None => None,
        },
        None => None,
    }
}

/// The wire form of the packet's fields.
pub open spec fn use_entity_bytes(v: (i32, i32, Option<(u32, u32, u32)>, Option<i32>)) -> Seq<u8> {
    varint_bytes(v.0) + varint_bytes(v.1) + match v.2 {
        Some(l) => be_bytes(l.0 as nat, 4) + be_bytes(l.1 as nat, 4) + be_bytes(l.2 as nat, 4),
        None => seq![],
    } + match v.3 {
        Some(h) => varint_bytes(h),
        None => seq![],
    }
}

/// Whether the packet can be written: its fields agree and fit.
pub open spec fn use_entity_fits(v: (i32, i32, Option<(u32, u32, u32)>, Option<i32>)) -> bool {
    (v.2 is Some <==> v.1 == 2) && (v.3 is Some <==> (v.1 == 0 || v.1 == 2))
}

impl UseEntity {
    /// Read the fields of a `UseEntity` packet.
    pub fn deserialize(rd: &mut Reader) -> (r: Result<UseEntity, ProtoError>)
        ensures
            reads_as_view(r, parse_use_entity(old(rd).rest()), final(rd).rest()),
    {
        let target = read_varint(rd)?;
        let action = read_varint(rd)?;
        let location = if action == 2 {
            let x = read_u32(rd)?;
            let y = read_u32(rd)?;
            let z = read_u32(rd)?;
            Some((x, y, z))
        } else {
            None
        };
        let hand = if action == 0 || action == 2 {
            Some(read_varint(rd)?)
        } else {
            None
        };
        Ok(UseEntity { target, action, location, hand })
    }

    /// Write the fields of this packet; the location must be present exactly
    /// for action 2 and the hand exactly for actions 0 and 2.
    pub fn write(&self, w: &mut Vec<u8>) -> (r: Result<(), ProtoError>)
        ensures
            r is Ok <==> use_entity_fits(self@),
            r is Ok ==> final(w)@ == old(w)@ + use_entity_bytes(self@),
            r is Err ==> r.unwrap_err() is InvalidOutbound,
    {
        if self.location.is_some() != (self.action == 2) {
            return Err(ProtoError::InvalidOutbound { reason: reason("location does not match the action") });
        }
        if self.hand.is_some() != (self.action == 0 || self.action == 2) {
            return Err(ProtoError::InvalidOutbound { reason: reason("hand does not match the action") });
        }
        write_varint(&self.target, w)?;
        write_varint(&self.action, w)?;
        if let Some((x, y, z)) = self.location {
            write_u32(&x, w)?;
            write_u32(&y, w)?;
            write_u32(&z, w)?;
        }
        if let Some(h) = self.hand {
            write_varint(&h, w)?;
        }
        assert(w@ =~= old(w)@ + use_entity_bytes(self@));
        Ok(())
    }
}

// ---- RecipeBookData ----

/// Recipe-book data: type 0 names the displayed recipe, type 1 carries the
/// four book states.
#[derive(Clone, Debug)]
pub struct RecipeBookData {
    pub displayed_recipe: Option<String>,
    pub recipe_book_states: Option<(bool, bool, bool, bool)>,
}

impl View for RecipeBookData {
    type V = (Option<Seq<char>>, Option<(bool, bool, bool, bool)>);

    open spec fn view(&self) -> Self::V {
        (opt_str(self.displayed_recipe), self.recipe_book_states)
    }
}

/// The fields of the packet at the front of `s`, and what follows them.
pub open spec fn parse_recipe_book_data(s: Seq<u8>) -> Option<((Option<Seq<char>>, Option<(bool, bool, bool, bool)>), Seq<u8>)> {
    match parse_varint(s) {
        Some((t, s1)) => if t == 0 {
            match parse_string(s1) {
                Some((d, s2)) => Some(((Some(d), None), s2)),
                None => None,
            }
        } else if t == 1 {
            match parse_bool(s1) {
                Some((a, s2)) => match parse_bool(s2) {
                    Some((b, s3)) => match parse_bool(s3) {
                        Some((c, s4)) => match parse_bool(s4) {
                            Some((d, s5)) => Some(((None, Some((a, b, c, d))), s5)),
                            None => None,
                        },
                        None => None,
                    },
                    None => None,
                },
                None => None,
            }
        } else {
            None
        },
        None => None,
    }
}

/// The wire form of the packet's fields.
pub open spec fn recipe_book_data_bytes(v: (Option<Seq<char>>, Option<(bool, bool, bool, bool)>)) -> Seq<u8> {
    match v.0 {
        Some(d) => varint_bytes(0) + string_bytes(d),
        None => match v.1 {
            Some(b) => varint_bytes(1) + bool_bytes(b.0) + bool_bytes(b.1) + bool_bytes(b.2)
                + bool_bytes(b.3),
            None => seq![],
        },
    }
}

/// Whether the packet can be written: its fields agree and fit.
pub open spec fn recipe_book_data_fits(v: (Option<Seq<char>>, Option<(bool, bool, bool, bool)>)) -> bool {
    (v.0 is Some <==> v.1 is None) && (v.0 is Some ==> str_fits(v.0.unwrap()))
}

impl RecipeBookData {
    /// Read the fields of a `RecipeBookData` packet.
    pub fn deserialize(rd: &mut Reader) -> (r: Result<RecipeBookData, ProtoError>)
        ensures
            reads_as_view(r, parse_recipe_book_data(old(rd).rest()), final(rd).rest()),
    {
        let t = read_varint(rd)?;
        if t == 0 {
            let d = read_String(rd)?;
            Ok(RecipeBookData { displayed_recipe: Some(d), recipe_book_states: None })
        } else if t == 1 {
            let a = read_bool(rd)?;
            let b = read_bool(rd)?;
            let c = read_bool(rd)?;
            let d = read_bool(rd)?;
            Ok(RecipeBookData { displayed_recipe: None, recipe_book_states: Some((a, b, c, d)) })
        } else {
            Err(ProtoError::Malformed)
        }
    }

    /// Write the fields of this packet; exactly one of the two kinds of data
    /// must be present.
    pub fn write(&self, w: &mut Vec<u8>) -> (r: Result<(), ProtoError>)
        ensures
            r is Ok <==> recipe_book_data_fits(self@),
            r is Ok ==> final(w)@ == old(w)@ + recipe_book_data_bytes(self@),
            r is Err ==> r.unwrap_err() is InvalidOutbound,
    {
        if self.displayed_recipe.is_some() == self.recipe_book_states.is_some() {
            return Err(ProtoError::InvalidOutbound { reason: reason("exactly one kind of recipe book data is needed") });
        }
        match &self.displayed_recipe {
            Some(d) => {
                write_varint(&0, w)?;
                write_String(d.as_str(), w)?;
            },
            None => {
                if let Some((a, b, c, d)) = self.recipe_book_states {
                    write_varint(&1, w)?;
                    write_bool(&a, w)?;
                    write_bool(&b, w)?;
                    write_bool(&c, w)?;
                    write_bool(&d, w)?;
                }
            },
        }
        assert(w@ =~= old(w)@ + recipe_book_data_bytes(self@));
        Ok(())
    }
}

// ---- AdvancementTab ----

/// The advancement screen: opened on a tab (action 0) or closed (action 1).
#[derive(Clone, Debug)]
pub struct AdvancementTab {
    pub tab_id: Option<String>,
}

impl View for AdvancementTab {
    type V = Option<Seq<char>>;

    open spec fn view(&self) -> Self::V {
        opt_str(self.tab_id)
    }
}

/// The fields of the packet at the front of `s`, and what follows them.
pub open spec fn parse_advancement_tab(s: Seq<u8>) -> Option<(Option<Seq<char>>, Seq<u8>)> {
    match parse_varint(s) {
        Some((a, s1)) => if a == 0 {
            match parse_string(s1) {
                Some((t, s2)) => Some((Some(t), s2)),
                None => None,
            }
        } else if a == 1 {
            Some((None, s1))
        } else {
            None
        },
        None => None,
    }
}

/// The wire form of the packet's fields.
pub open spec fn advancement_tab_bytes(v: Option<Seq<char>>) -> Seq<u8> {
    match v {
        Some(t) => varint_bytes(0) + string_bytes(t),
        None => varint_bytes(1),
    }
}

/// Whether the packet can be written: its fields agree and fit.
pub open spec fn advancement_tab_fits(v: Option<Seq<char>>) -> bool {
    v is Some ==> str_fits(v.unwrap())
}

impl AdvancementTab {
    /// Read the fields of an `AdvancementTab` packet.
    pub fn deserialize(rd: &mut Reader) -> (r: Result<AdvancementTab, ProtoError>)
        ensures
            reads_as_view(r, parse_advancement_tab(old(rd).rest()), final(rd).rest()),
    {
        let action = read_varint(rd)?;
        if action == 0 {
            let t = read_String(rd)?;
            Ok(AdvancementTab { tab_id: Some(t) })
        } else if action == 1 {
            Ok(AdvancementTab { tab_id: None })
        } else {
            Err(ProtoError::Malformed)
        }
    }

    /// Write the fields of this packet.
    pub fn write(&self, w: &mut Vec<u8>) -> (r: Result<(), ProtoError>)
        ensures
            r is Ok <==> advancement_tab_fits(self@),
            r is Ok ==> final(w)@ == old(w)@ + advancement_tab_bytes(self@),
            r is Err ==> r.unwrap_err() is InvalidOutbound,
    {
        match &self.tab_id {
            Some(t) => {
                write_varint(&0, w)?;
                write_String(t.as_str(), w)?;
            },
            None => {
                write_varint(&1, w)?;
            },
        }
        assert(w@ =~= old(w)@ + advancement_tab_bytes(self@));
        Ok(())
    }
}

/// Reading back a written status request gives it back.
pub proof fn lemma_status_request_round_trip(v: (), rest: Seq<u8>)
    ensures
        parse_status_request(status_request_bytes(v) + rest) == Some((v, rest)),
{
    assert(status_request_bytes(v) + rest =~= rest);
}

/// Reading back a written tab-completion request gives it back, when the text
/// is short enough to be read.
pub proof fn lemma_tab_complete_round_trip(v: (Seq<char>, bool, Option<u64>), rest: Seq<u8>)
    requires
        tab_complete_fits(v),
        encode_utf8(v.0).len() <= MAX_STRING_LEN,
    ensures
        parse_tab_complete(tab_complete_bytes(v) + rest) == Some((v, rest)),
{
    let tail = match v.2 {
        Some(p) => bool_bytes(true) + be_bytes(p as nat, 8),
        None => bool_bytes(false),
    };
    let t2 = tail + rest;
    let t1 = bool_bytes(v.1) + t2;
    assert(tab_complete_bytes(v) + rest =~= string_bytes(v.0) + t1);
    lemma_string_round_trip(v.0, t1);
    lemma_bool_round_trip(v.1, t2);
    match v.2 {
        Some(p) => {
            assert(t2 =~= bool_bytes(true) + (be_bytes(p as nat, 8) + rest));
            lemma_bool_round_trip(true, be_bytes(p as nat, 8) + rest);
            lemma_u64_round_trip(p, rest);
        },
        None => lemma_bool_round_trip(false, rest),
    }
}

/// Reading back a written entity use gives it back.
pub proof fn lemma_use_entity_round_trip(v: (i32, i32, Option<(u32, u32, u32)>, Option<i32>), rest: Seq<u8>)
    requires
        use_entity_fits(v),
    ensures
        parse_use_entity(use_entity_bytes(v) + rest) == Some((v, rest)),
{
    let t3 = match v.3 {
        Some(h) => varint_bytes(h),
        None => seq![],
    } + rest;
    let t2 = match v.2 {
        Some(l) => be_bytes(l.0 as nat, 4) + be_bytes(l.1 as nat, 4) + be_bytes(l.2 as nat, 4),
        None => seq![],
    } + t3;
    let t1 = varint_bytes(v.1) + t2;
    assert(use_entity_bytes(v) + rest =~= varint_bytes(v.0) + t1);
    lemma_varint_round_trip(v.0, t1);
    lemma_varint_round_trip(v.1, t2);
    match v.2 {
        Some(l) => {
            let s2 = be_bytes(l.2 as nat, 4) + t3;
            let s1 = be_bytes(l.1 as nat, 4) + s2;
            assert(t2 =~= be_bytes(l.0 as nat, 4) + s1);
            lemma_u32_round_trip(l.0, s1);
            lemma_u32_round_trip(l.1, s2);
            lemma_u32_round_trip(l.2, t3);
        },
        None => assert(t2 =~= t3),
    }
    match v.3 {
        Some(h) => lemma_varint_round_trip(h, rest),
        None => assert(t3 =~= rest),
    }
}

/// Reading back written recipe-book data gives it back, when the recipe name
/// is short enough to be read.
pub proof fn lemma_recipe_book_data_round_trip(v: (Option<Seq<char>>, Option<(bool, bool, bool, bool)>), rest: Seq<u8>)
    requires
        recipe_book_data_fits(v),
        v.0 is Some ==> encode_utf8(v.0.unwrap()).len() <= MAX_STRING_LEN,
    ensures
        parse_recipe_book_data(recipe_book_data_bytes(v) + rest) == Some((v, rest)),
{
    match v.0 {
        Some(d) => {
            assert(recipe_book_data_bytes(v) + rest =~= varint_bytes(0) + (string_bytes(d) + rest));
            lemma_varint_round_trip(0, string_bytes(d) + rest);
            lemma_string_round_trip(d, rest);
        },
        None => {
            let b = v.1.unwrap();
            let t4 = bool_bytes(b.3) + rest;
            let t3 = bool_bytes(b.2) + t4;
            let t2 = bool_bytes(b.1) + t3;
            let t1 = bool_bytes(b.0) + t2;
            assert(recipe_book_data_bytes(v) + rest =~= varint_bytes(1) + t1);
            lemma_varint_round_trip(1, t1);
            lemma_bool_round_trip(b.0, t2);
            lemma_bool_round_trip(b.1, t3);
            lemma_bool_round_trip(b.2, t4);
            lemma_bool_round_trip(b.3, rest);
        },
    }
}

/// Reading back a written advancement-tab packet gives it back, when the tab
/// id is short enough to be read.
pub proof fn lemma_advancement_tab_round_trip(v: Option<Seq<char>>, rest: Seq<u8>)
    requires
        advancement_tab_fits(v),
        v is Some ==> encode_utf8(v.unwrap()).len() <= MAX_STRING_LEN,
    ensures
        parse_advancement_tab(advancement_tab_bytes(v) + rest) == Some((v, rest)),
{
    match v {
        Some(t) => {
            assert(advancement_tab_bytes(v) + rest =~= varint_bytes(0) + (string_bytes(t) + rest));
            lemma_varint_round_trip(0, string_bytes(t) + rest);
            lemma_string_round_trip(t, rest);
        },
        None => {
            lemma_varint_round_trip(1, rest);
        },
    }
}

/// Every packet that travels serverbound.
#[derive(Clone, Debug)]
pub enum ServerboundPacket {
    Handshake(Handshake),
    StatusRequest(StatusRequest),
    StatusPing(StatusPing),
    LoginStart(LoginStart),
    EncryptionResponse(EncryptionResponse),
    ChatMessage(ChatMessage),
    TabComplete(TabComplete),
    UseEntity(UseEntity),
    KeepAlive(KeepAlive),
    RecipeBookData(RecipeBookData),
    AdvancementTab(AdvancementTab),
}

/// The state and identifier under which a packet travels.
pub open spec fn serverbound_packet_key(p: ServerboundPacket) -> (ClientState, i32) {
    match p {
        ServerboundPacket::Handshake(p) => (ClientState::Handshake, 0x00),
        ServerboundPacket::StatusRequest(p) => (ClientState::Status, 0x00),
        ServerboundPacket::StatusPing(p) => (ClientState::Status, 0x01),
        ServerboundPacket::LoginStart(p) => (ClientState::Login, 0x00),
        ServerboundPacket::EncryptionResponse(p) => (ClientState::Login, 0x01),
        ServerboundPacket::ChatMessage(p) => (ClientState::Play, 0x02),
        ServerboundPacket::TabComplete(p) => (ClientState::Play, 0x05),
        ServerboundPacket::UseEntity(p) => (ClientState::Play, 0x0d),
        ServerboundPacket::KeepAlive(p) => (ClientState::Play, 0x0e),
        ServerboundPacket::RecipeBookData(p) => (ClientState::Play, 0x1b),
        ServerboundPacket::AdvancementTab(p) => (ClientState::Play, 0x1e),
    }
}

/// Whether a packet is known under this state and identifier.
pub open spec fn serverbound_packet_known(state: ClientState, id: i32) -> bool {
    (state == ClientState::Handshake && id == 0x00) ||
    (state == ClientState::Status && id == 0x00) ||
    (state == ClientState::Status && id == 0x01) ||
    (state == ClientState::Login && id == 0x00) ||
    (state == ClientState::Login && id == 0x01) ||
    (state == ClientState::Play && id == 0x02) ||
    (state == ClientState::Play && id == 0x05) ||
    (state == ClientState::Play && id == 0x0d) ||
    (state == ClientState::Play && id == 0x0e) ||
    (state == ClientState::Play && id == 0x1b) ||
    (state == ClientState::Play && id == 0x1e)
}

/// Whether the body of the packet known under this state and identifier parses.
pub open spec fn serverbound_packet_body_parses(state: ClientState, id: i32, s: Seq<u8>) -> bool {
    if state == ClientState::Handshake && id == 0x00 {
        parse_handshake(s) is Some
    } else if state == ClientState::Status && id == 0x00 {
        parse_status_request(s) is Some
    } else if state == ClientState::Status && id == 0x01 {
        parse_status_ping(s) is Some
    } else if state == ClientState::Login && id == 0x00 {
        parse_login_start(s) is Some
    } else if state == ClientState::Login && id == 0x01 {
        parse_encryption_response(s) is Some
    } else if state == ClientState::Play && id == 0x02 {
        parse_chat_message(s) is Some
    } else if state == ClientState::Play && id == 0x05 {
        parse_tab_complete(s) is Some
    } else if state == ClientState::Play && id == 0x0d {
        parse_use_entity(s) is Some
    } else if state == ClientState::Play && id == 0x0e {
        parse_keep_alive(s) is Some
    } else if state == ClientState::Play && id == 0x1b {
        parse_recipe_book_data(s) is Some
    } else if state == ClientState::Play && id == 0x1e {
        parse_advancement_tab(s) is Some
    } else {
        false
    }
}

/// The packet is what its body parses to.
pub open spec fn serverbound_packet_parsed_from(p: ServerboundPacket, s: Seq<u8>) -> bool {
    match p {
        ServerboundPacket::Handshake(p) => parse_handshake(s) is Some && parse_handshake(s).unwrap().0 == p@,
        ServerboundPacket::StatusRequest(p) => parse_status_request(s) is Some && parse_status_request(s).unwrap().0 == p@,
        ServerboundPacket::StatusPing(p) => parse_status_ping(s) is Some && parse_status_ping(s).unwrap().0 == p@,
        ServerboundPacket::LoginStart(p) => parse_login_start(s) is Some && parse_login_start(s).unwrap().0 == p@,
        ServerboundPacket::EncryptionResponse(p) => parse_encryption_response(s) is Some && parse_encryption_response(s).unwrap().0 == p@,
        ServerboundPacket::ChatMessage(p) => parse_chat_message(s) is Some && parse_chat_message(s).unwrap().0 == p@,
        ServerboundPacket::TabComplete(p) => parse_tab_complete(s) is Some && parse_tab_complete(s).unwrap().0 == p@,
        ServerboundPacket::UseEntity(p) => parse_use_entity(s) is Some && parse_use_entity(s).unwrap().0 == p@,
        ServerboundPacket::KeepAlive(p) => parse_keep_alive(s) is Some && parse_keep_alive(s).unwrap().0 == p@,
        ServerboundPacket::RecipeBookData(p) => parse_recipe_book_data(s) is Some && parse_recipe_book_data(s).unwrap().0 == p@,
        ServerboundPacket::AdvancementTab(p) => parse_advancement_tab(s) is Some && parse_advancement_tab(s).unwrap().0 == p@,
    }
}

/// The wire form of a packet's fields, after its identifier.
pub open spec fn serverbound_packet_body_bytes(p: ServerboundPacket) -> Seq<u8> {
    match p {
        ServerboundPacket::Handshake(p) => handshake_bytes(p@),
        ServerboundPacket::StatusRequest(p) => status_request_bytes(p@),
        ServerboundPacket::StatusPing(p) => status_ping_bytes(p@),
        ServerboundPacket::LoginStart(p) => login_start_bytes(p@),
        ServerboundPacket::EncryptionResponse(p) => encryption_response_bytes(p@),
        ServerboundPacket::ChatMessage(p) => chat_message_bytes(p@),
        ServerboundPacket::TabComplete(p) => tab_complete_bytes(p@),
        ServerboundPacket::UseEntity(p) => use_entity_bytes(p@),
        ServerboundPacket::KeepAlive(p) => keep_alive_bytes(p@),
        ServerboundPacket::RecipeBookData(p) => recipe_book_data_bytes(p@),
        ServerboundPacket::AdvancementTab(p) => advancement_tab_bytes(p@),
    }
}

/// Whether a packet can be written: its fields are consistent and fit.
pub open spec fn serverbound_packet_fits(p: ServerboundPacket) -> bool {
    match p {
        ServerboundPacket::Handshake(p) => handshake_fits(p@),
        ServerboundPacket::StatusRequest(p) => true,
        ServerboundPacket::StatusPing(p) => true,
        ServerboundPacket::LoginStart(p) => login_start_fits(p@),
        ServerboundPacket::EncryptionResponse(p) => encryption_response_fits(p@),
        ServerboundPacket::ChatMessage(p) => chat_message_fits(p@),
        ServerboundPacket::TabComplete(p) => tab_complete_fits(p@),
        ServerboundPacket::UseEntity(p) => use_entity_fits(p@),
        ServerboundPacket::KeepAlive(p) => true,
        ServerboundPacket::RecipeBookData(p) => recipe_book_data_fits(p@),
        ServerboundPacket::AdvancementTab(p) => advancement_tab_fits(p@),
    }
}

impl ServerboundPacket {
    /// Decode a packet (identifier and fields) that arrived in `state`.
    pub fn deserialize(data: &[u8], state: ClientState) -> (r: Result<ServerboundPacket, ProtoError>)
        ensures
            match parse_varint(data@) {
                None => r is Err && r.unwrap_err() is Malformed,
                Some((id, body)) => if serverbound_packet_known(state, id) {
                    &&& r is Ok <==> serverbound_packet_body_parses(state, id, body)
                    &&& r is Ok ==> serverbound_packet_key(r.unwrap()) == (state, id) && serverbound_packet_parsed_from(r.unwrap(), body)
                    &&& r is Err ==> r.unwrap_err() is Malformed
                } else {
                    match r {
                        Err(ProtoError::UnknownPacket { direction, state: st, id: i }) => direction
                            == Direction::Serverbound && st == state && i == id,
                        _ => false,
                    }
                },
            },
    {
        let mut rd = Reader::from_slice(data);
        let id = read_varint(&mut rd)?;
        match state {
            ClientState::Handshake => Self::deserialize_handshake(&mut rd, id),
            ClientState::Status => Self::deserialize_status(&mut rd, id),
            ClientState::Login => Self::deserialize_login(&mut rd, id),
            ClientState::Play => Self::deserialize_play(&mut rd, id),
        }
    }

    #[verifier::rlimit(50)]
    fn deserialize_handshake(rd: &mut Reader, id: i32) -> (r: Result<ServerboundPacket, ProtoError>)
        ensures
            serverbound_packet_known(ClientState::Handshake, id) ==> {
                &&& r is Ok <==> serverbound_packet_body_parses(ClientState::Handshake, id, old(rd).rest())
                &&& r is Ok ==> serverbound_packet_key(r.unwrap()) == (ClientState::Handshake, id) && serverbound_packet_parsed_from(r.unwrap(), old(rd).rest())
                &&& r is Err ==> r.unwrap_err() is Malformed
            },
            !serverbound_packet_known(ClientState::Handshake, id) ==> match r {
                Err(ProtoError::UnknownPacket { direction, state: st, id: i }) => direction
                    == Direction::Serverbound && st == ClientState::Handshake && i == id,
                _ => false,
            },
    {
        if id == 0x00 {
            let p = Handshake::deserialize(rd)?;
            return Ok(ServerboundPacket::Handshake(p));
        }
        Err(ProtoError::UnknownPacket { direction: Direction::Serverbound, state: ClientState::Handshake, id })
    }

    #[verifier::rlimit(50)]
    fn deserialize_status(rd: &mut Reader, id: i32) -> (r: Result<ServerboundPacket, ProtoError>)
        ensures
            serverbound_packet_known(ClientState::Status, id) ==> {
                &&& r is Ok <==> serverbound_packet_body_parses(ClientState::Status, id, old(rd).rest())
                &&& r is Ok ==> serverbound_packet_key(r.unwrap()) == (ClientState::Status, id) && serverbound_packet_parsed_from(r.unwrap(), old(rd).rest())
                &&& r is Err ==> r.unwrap_err() is Malformed
            },
            !serverbound_packet_known(ClientState::Status, id) ==> match r {
                Err(ProtoError::UnknownPacket { direction, state: st, id: i }) => direction
                    == Direction::Serverbound && st == ClientState::Status && i == id,
                _ => false,
            },
    {
        if id == 0x00 {
            let p = StatusRequest::deserialize(rd)?;
            return Ok(ServerboundPacket::StatusRequest(p));
        }
        if id == 0x01 {
            let p = StatusPing::deserialize(rd)?;
            return Ok(ServerboundPacket::StatusPing(p));
        }
        Err(ProtoError::UnknownPacket { direction: Direction::Serverbound, state: ClientState::Status, id })
    }

    #[verifier::rlimit(50)]
    fn deserialize_login(rd: &mut Reader, id: i32) -> (r: Result<ServerboundPacket, ProtoError>)
        ensures
            serverbound_packet_known(ClientState::Login, id) ==> {
                &&& r is Ok <==> serverbound_packet_body_parses(ClientState::Login, id, old(rd).rest())
                &&& r is Ok ==> serverbound_packet_key(r.unwrap()) == (ClientState::Login, id) && serverbound_packet_parsed_from(r.unwrap(), old(rd).rest())
                &&& r is Err ==> r.unwrap_err() is Malformed
            },
            !serverbound_packet_known(ClientState::Login, id) ==> match r {
                Err(ProtoError::UnknownPacket { direction, state: st, id: i }) => direction
                    == Direction::Serverbound && st == ClientState::Login && i == id,
                _ => false,
            },
    {
        if id == 0x00 {
            let p = LoginStart::deserialize(rd)?;
            return Ok(ServerboundPacket::LoginStart(p));
        }
        if id == 0x01 {
            let p = EncryptionResponse::deserialize(rd)?;
            return Ok(ServerboundPacket::EncryptionResponse(p));
        }
        Err(ProtoError::UnknownPacket { direction: Direction::Serverbound, state: ClientState::Login, id })
    }

    #[verifier::rlimit(50)]
    fn deserialize_play(rd: &mut Reader, id: i32) -> (r: Result<ServerboundPacket, ProtoError>)
        ensures
            serverbound_packet_known(ClientState::Play, id) ==> {
                &&& r is Ok <==> serverbound_packet_body_parses(ClientState::Play, id, old(rd).rest())
                &&& r is Ok ==> serverbound_packet_key(r.unwrap()) == (ClientState::Play, id) && serverbound_packet_parsed_from(r.unwrap(), old(rd).rest())
                &&& r is Err ==> r.unwrap_err() is Malformed
            },
            !serverbound_packet_known(ClientState::Play, id) ==> match r {
                Err(ProtoError::UnknownPacket { direction, state: st, id: i }) => direction
                    == Direction::Serverbound && st == ClientState::Play && i == id,
                _ => false,
            },
    {
        if id == 0x02 {
            let p = ChatMessage::deserialize(rd)?;
            return Ok(ServerboundPacket::ChatMessage(p));
        }
        if id == 0x05 {
            let p = TabComplete::deserialize(rd)?;
            return Ok(ServerboundPacket::TabComplete(p));
        }
        if id == 0x0d {
            let p = UseEntity::deserialize(rd)?;
            return Ok(ServerboundPacket::UseEntity(p));
        }
        if id == 0x0e {
            let p = KeepAlive::deserialize(rd)?;
            return Ok(ServerboundPacket::KeepAlive(p));
        }
        if id == 0x1b {
            let p = RecipeBookData::deserialize(rd)?;
            return Ok(ServerboundPacket::RecipeBookData(p));
        }
        if id == 0x1e {
            let p = AdvancementTab::deserialize(rd)?;
            return Ok(ServerboundPacket::AdvancementTab(p));
        }
        Err(ProtoError::UnknownPacket { direction: Direction::Serverbound, state: ClientState::Play, id })
    }

    /// The packet's identifier.
    pub fn get_id(&self) -> (r: i32)
        ensures
            r == serverbound_packet_key(*self).1,
    {
        match self {
            ServerboundPacket::Handshake(_) => 0x00,
            ServerboundPacket::StatusRequest(_) => 0x00,
            ServerboundPacket::StatusPing(_) => 0x01,
            ServerboundPacket::LoginStart(_) => 0x00,
            ServerboundPacket::EncryptionResponse(_) => 0x01,
            ServerboundPacket::ChatMessage(_) => 0x02,
            ServerboundPacket::TabComplete(_) => 0x05,
            ServerboundPacket::UseEntity(_) => 0x0d,
            ServerboundPacket::KeepAlive(_) => 0x0e,
            ServerboundPacket::RecipeBookData(_) => 0x1b,
            ServerboundPacket::AdvancementTab(_) => 0x1e,
        }
    }

    /// The state in which the packet travels.
    pub fn get_clientstate(&self) -> (r: ClientState)
        ensures
            r == serverbound_packet_key(*self).0,
    {
        match self {
            ServerboundPacket::Handshake(_) => ClientState::Handshake,
            ServerboundPacket::StatusRequest(_) => ClientState::Status,
            ServerboundPacket::StatusPing(_) => ClientState::Status,
            ServerboundPacket::LoginStart(_) => ClientState::Login,
            ServerboundPacket::EncryptionResponse(_) => ClientState::Login,
            ServerboundPacket::ChatMessage(_) => ClientState::Play,
            ServerboundPacket::TabComplete(_) => ClientState::Play,
            ServerboundPacket::UseEntity(_) => ClientState::Play,
            ServerboundPacket::KeepAlive(_) => ClientState::Play,
            ServerboundPacket::RecipeBookData(_) => ClientState::Play,
            ServerboundPacket::AdvancementTab(_) => ClientState::Play,
        }
    }

    /// The packet's name.
    pub fn get_packet_name(&self) -> &'static str {
        match self {
            ServerboundPacket::Handshake(_) => "Handshake",
            ServerboundPacket::StatusRequest(_) => "StatusRequest",
            ServerboundPacket::StatusPing(_) => "StatusPing",
            ServerboundPacket::LoginStart(_) => "LoginStart",
            ServerboundPacket::EncryptionResponse(_) => "EncryptionResponse",
            ServerboundPacket::ChatMessage(_) => "ChatMessage",
            ServerboundPacket::TabComplete(_) => "TabComplete",
            ServerboundPacket::UseEntity(_) => "UseEntity",
            ServerboundPacket::KeepAlive(_) => "KeepAlive",
            ServerboundPacket::RecipeBookData(_) => "RecipeBookData",
            ServerboundPacket::AdvancementTab(_) => "AdvancementTab",
        }
    }

    /// Encode the packet: its identifier as a varint, then its fields.
    pub fn to_u8(&self) -> (r: Result<Vec<u8>, ProtoError>)
        ensures
            r is Ok <==> serverbound_packet_fits(*self),
            r is Ok ==> r.unwrap()@ == varint_bytes(serverbound_packet_key(*self).1) + serverbound_packet_body_bytes(*self),
            r is Err ==> r.unwrap_err() is InvalidOutbound,
    {
        let mut w: Vec<u8> = Vec::new();
        write_varint(&self.get_id(), &mut w)?;
        match self {
            ServerboundPacket::Handshake(p) => p.write(&mut w)?,
            ServerboundPacket::StatusRequest(p) => p.write(&mut w)?,
            ServerboundPacket::StatusPing(p) => p.write(&mut w)?,
            ServerboundPacket::LoginStart(p) => p.write(&mut w)?,
            ServerboundPacket::EncryptionResponse(p) => p.write(&mut w)?,
            ServerboundPacket::ChatMessage(p) => p.write(&mut w)?,
            ServerboundPacket::TabComplete(p) => p.write(&mut w)?,
            ServerboundPacket::UseEntity(p) => p.write(&mut w)?,
            ServerboundPacket::KeepAlive(p) => p.write(&mut w)?,
            ServerboundPacket::RecipeBookData(p) => p.write(&mut w)?,
            ServerboundPacket::AdvancementTab(p) => p.write(&mut w)?,
        }
        Ok(w)
    }
}

/// Whether the strings of a packet are short enough to be read back.
pub open spec fn serverbound_packet_readable(p: ServerboundPacket) -> bool {
    match p {
        ServerboundPacket::Handshake(x) => encode_utf8(x@.1).len() <= MAX_STRING_LEN,
        ServerboundPacket::StatusRequest(x) => true,
        ServerboundPacket::StatusPing(x) => true,
        ServerboundPacket::LoginStart(x) => encode_utf8(x@.0).len() <= MAX_STRING_LEN,
        ServerboundPacket::EncryptionResponse(x) => true,
        ServerboundPacket::ChatMessage(x) => encode_utf8(x@.0).len() <= MAX_STRING_LEN,
        ServerboundPacket::TabComplete(x) => encode_utf8(x@.0).len() <= MAX_STRING_LEN,
        ServerboundPacket::UseEntity(x) => true,
        ServerboundPacket::KeepAlive(x) => true,
        ServerboundPacket::RecipeBookData(x) => (x@.0 is Some ==> encode_utf8(x@.0.unwrap()).len() <= MAX_STRING_LEN),
        ServerboundPacket::AdvancementTab(x) => (x@ is Some ==> encode_utf8(x@.unwrap()).len() <= MAX_STRING_LEN),
    }
}

/// Every packet decodes back from what `to_u8` writes: its identifier
/// reads back, the packet is known under its state and identifier, and its
/// fields parse to exactly its own fields, with nothing left over. So
/// `deserialize` in the packet's state returns the same variant with the same
/// fields.
pub proof fn lemma_serverbound_packet_round_trip(p: ServerboundPacket)
    requires
        serverbound_packet_fits(p),
        serverbound_packet_readable(p),
    ensures
        parse_varint(varint_bytes(serverbound_packet_key(p).1) + serverbound_packet_body_bytes(p)) == Some(
            (serverbound_packet_key(p).1, serverbound_packet_body_bytes(p)),
        ),
        serverbound_packet_known(serverbound_packet_key(p).0, serverbound_packet_key(p).1),
        serverbound_packet_body_parses(serverbound_packet_key(p).0, serverbound_packet_key(p).1, serverbound_packet_body_bytes(p)),
        serverbound_packet_parsed_from(p, serverbound_packet_body_bytes(p)),
{
    crate::wire::lemma_varint_round_trip(serverbound_packet_key(p).1, serverbound_packet_body_bytes(p));
    let e = Seq::<u8>::empty();
    match p {
        ServerboundPacket::Handshake(x) => {
            lemma_handshake_round_trip(x@, e);
            assert(handshake_bytes(x@) + e =~= handshake_bytes(x@));
        },
        ServerboundPacket::StatusRequest(x) => {
            lemma_status_request_round_trip(x@, e);
            assert(status_request_bytes(x@) + e =~= status_request_bytes(x@));
        },
        ServerboundPacket::StatusPing(x) => {
            lemma_status_ping_round_trip(x@, e);
            assert(status_ping_bytes(x@) + e =~= status_ping_bytes(x@));
        },
        ServerboundPacket::LoginStart(x) => {
            lemma_login_start_round_trip(x@, e);
            assert(login_start_bytes(x@) + e =~= login_start_bytes(x@));
        },
        ServerboundPacket::EncryptionResponse(x) => {
            lemma_encryption_response_round_trip(x@, e);
            assert(encryption_response_bytes(x@) + e =~= encryption_response_bytes(x@));
        },
        ServerboundPacket::ChatMessage(x) => {
            lemma_chat_message_round_trip(x@, e);
            assert(chat_message_bytes(x@) + e =~= chat_message_bytes(x@));
        },
        ServerboundPacket::TabComplete(x) => {
            lemma_tab_complete_round_trip(x@, e);
            assert(tab_complete_bytes(x@) + e =~= tab_complete_bytes(x@));
        },
        ServerboundPacket::UseEntity(x) => {
            lemma_use_entity_round_trip(x@, e);
            assert(use_entity_bytes(x@) + e =~= use_entity_bytes(x@));
        },
        ServerboundPacket::KeepAlive(x) => {
            lemma_keep_alive_round_trip(x@, e);
            assert(keep_alive_bytes(x@) + e =~= keep_alive_bytes(x@));
        },
        ServerboundPacket::RecipeBookData(x) => {
            lemma_recipe_book_data_round_trip(x@, e);
            assert(recipe_book_data_bytes(x@) + e =~= recipe_book_data_bytes(x@));
        },
        ServerboundPacket::AdvancementTab(x) => {
            lemma_advancement_tab_round_trip(x@, e);
            assert(advancement_tab_bytes(x@) + e =~= advancement_tab_bytes(x@));
        },
    }
}

} // verus!
