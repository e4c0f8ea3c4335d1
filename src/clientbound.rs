//! The packets a server sends to a client.
use vstd::prelude::*;
use vstd::string::StrSliceExecFns;
use vstd::utf8::encode_utf8;

use crate::error::{reads_as_view, reason, Direction, ProtoError};
use crate::read::{
    read_bool, read_bytearray_to_end, read_i32, read_i64, read_i8, read_prefixed_bytearray,
    read_String, read_u32, read_u64, read_u8, read_varint,
};
use crate::reader::Reader;
use crate::wire::{
    be_bytes, bool_bytes, parse_bool, parse_i32, parse_i64, parse_i8, parse_prefixed_bytes,
    parse_string, parse_u32, parse_u64, parse_u8, parse_varint, prefixed_bytes, string_bytes,
    unsigned_of, varint_bytes,
};
use crate::wire::{
    lemma_bool_round_trip, lemma_i32_round_trip, lemma_string_round_trip, lemma_u32_round_trip,
    lemma_u64_round_trip, lemma_u8_round_trip, lemma_varint_round_trip, MAX_STRING_LEN,
};
use crate::write::{
    write_bool, write_bytearray, write_i32, write_i64, write_i8, write_prefixed_bytearray,
    write_String, write_u32, write_u64, write_u8, write_varint,
};
use crate::ClientState;

verus! {

/// The bytes that remain, all of them.
pub open spec fn parse_rest(s: Seq<u8>) -> Option<(Seq<u8>, Seq<u8>)> {
    Some((s, Seq::<u8>::empty()))
}

/// The server status, as JSON text.
#[derive(Clone, Debug)]
pub struct StatusResponse {
    pub json_response: String,
}

impl View for StatusResponse {
    type V = (Seq<char>,);

    open spec fn view(&self) -> (Seq<char>,) {
        (self.json_response@,)
    }
}

/// The fields of a `StatusResponse` at the front of `s`, and what follows them.
pub open spec fn parse_status_response(s: Seq<u8>) -> Option<((Seq<char>,), Seq<u8>)> {
    match parse_string(s) {
        Some((a0, s1)) => Some(((a0,), s1)),
        None => None,
    }
}

/// The wire form of the fields of a `StatusResponse`.
pub open spec fn status_response_bytes(v: (Seq<char>,)) -> Seq<u8> {
    string_bytes(v.0)
}

/// Whether the fields of a `StatusResponse` can be written.
pub open spec fn status_response_fits(v: (Seq<char>,)) -> bool {
    encode_utf8(v.0).len() <= i32::MAX
}

impl StatusResponse {
    /// Read the fields of a `StatusResponse` packet.
    pub fn deserialize(rd: &mut Reader) -> (r: Result<StatusResponse, ProtoError>)
        ensures
            reads_as_view(r, parse_status_response(old(rd).rest()), final(rd).rest()),
    {
        let json_response = read_String(rd)?;
        Ok(StatusResponse { json_response })
    }

    /// Write the fields of this packet.
    pub fn write(&self, w: &mut Vec<u8>) -> (r: Result<(), ProtoError>)
        ensures
            r is Ok <==> status_response_fits(self@),
            r is Ok ==> final(w)@ == old(w)@ + status_response_bytes(self@),
            r is Err ==> r.unwrap_err() is InvalidOutbound,
    {
        write_String(self.json_response.as_str(), w)?;
        assert(w@ =~= old(w)@ + status_response_bytes(self@));
        Ok(())
    }
}

/// Reading the fields of a `StatusResponse` back gives the value that was written,
/// when the strings are short enough to be read.
pub proof fn lemma_status_response_round_trip(v: (Seq<char>,), rest: Seq<u8>)
    requires
        status_response_fits(v),
        encode_utf8(v.0).len() <= crate::wire::MAX_STRING_LEN,
    ensures
        parse_status_response(status_response_bytes(v) + rest) == Some((v, rest)),
{
    let t1 = rest;
    let t0 = string_bytes(v.0) + t1;
    assert(status_response_bytes(v) + rest =~= t0);
    crate::wire::lemma_string_round_trip(v.0, t1);
}

/// The answer to a status ping.
#[derive(Clone, Debug)]
pub struct StatusPong {
    pub payload: i64,
}

impl View for StatusPong {
    type V = (i64,);

    open spec fn view(&self) -> (i64,) {
        (self.payload,)
    }
}

/// The fields of a `StatusPong` at the front of `s`, and what follows them.
pub open spec fn parse_status_pong(s: Seq<u8>) -> Option<((i64,), Seq<u8>)> {
    match parse_i64(s) {
        Some((a0, s1)) => Some(((a0,), s1)),
        None => None,
    }
}

/// The wire form of the fields of a `StatusPong`.
pub open spec fn status_pong_bytes(v: (i64,)) -> Seq<u8> {
    be_bytes(unsigned_of(v.0 as int, 0x1_0000_0000_0000_0000), 8)
}

impl StatusPong {
    /// Read the fields of a `StatusPong` packet.
    pub fn deserialize(rd: &mut Reader) -> (r: Result<StatusPong, ProtoError>)
        ensures
            reads_as_view(r, parse_status_pong(old(rd).rest()), final(rd).rest()),
    {
        let payload = read_i64(rd)?;
        Ok(StatusPong { payload })
    }

    /// Write the fields of this packet.
    pub fn write(&self, w: &mut Vec<u8>) -> (r: Result<(), ProtoError>)
        ensures
            r is Ok,
            r is Ok ==> final(w)@ == old(w)@ + status_pong_bytes(self@),
            r is Err ==> r.unwrap_err() is InvalidOutbound,
    {
        write_i64(&self.payload, w)?;
        assert(w@ =~= old(w)@ + status_pong_bytes(self@));
        Ok(())
    }
}

/// Reading the fields of a `StatusPong` back gives the value that was written.
pub proof fn lemma_status_pong_round_trip(v: (i64,), rest: Seq<u8>)
    ensures
        parse_status_pong(status_pong_bytes(v) + rest) == Some((v, rest)),
{
    let t1 = rest;
    let t0 = be_bytes(unsigned_of(v.0 as int, 0x1_0000_0000_0000_0000), 8) + t1;
    assert(status_pong_bytes(v) + rest =~= t0);
    crate::wire::lemma_i64_round_trip(v.0, t1);
}

/// The server refused the login; the reason is chat JSON.
#[derive(Clone, Debug)]
pub struct LoginDisconnect {
    pub raw_chat: String,
}

impl View for LoginDisconnect {
    type V = (Seq<char>,);

    open spec fn view(&self) -> (Seq<char>,) {
        (self.raw_chat@,)
    }
}

/// The fields of a `LoginDisconnect` at the front of `s`, and what follows them.
pub open spec fn parse_login_disconnect(s: Seq<u8>) -> Option<((Seq<char>,), Seq<u8>)> {
    match parse_string(s) {
        Some((a0, s1)) => Some(((a0,), s1)),
        None => None,
    }
}

/// The wire form of the fields of a `LoginDisconnect`.
pub open spec fn login_disconnect_bytes(v: (Seq<char>,)) -> Seq<u8> {
    string_bytes(v.0)
}

/// Whether the fields of a `LoginDisconnect` can be written.
pub open spec fn login_disconnect_fits(v: (Seq<char>,)) -> bool {
    encode_utf8(v.0).len() <= i32::MAX
}

impl LoginDisconnect {
    /// Read the fields of a `LoginDisconnect` packet.
    pub fn deserialize(rd: &mut Reader) -> (r: Result<LoginDisconnect, ProtoError>)
        ensures
            reads_as_view(r, parse_login_disconnect(old(rd).rest()), final(rd).rest()),
    {
        let raw_chat = read_String(rd)?;
        Ok(LoginDisconnect { raw_chat })
    }

    /// Write the fields of this packet.
    pub fn write(&self, w: &mut Vec<u8>) -> (r: Result<(), ProtoError>)
        ensures
            r is Ok <==> login_disconnect_fits(self@),
            r is Ok ==> final(w)@ == old(w)@ + login_disconnect_bytes(self@),
            r is Err ==> r.unwrap_err() is InvalidOutbound,
    {
        write_String(self.raw_chat.as_str(), w)?;
        assert(w@ =~= old(w)@ + login_disconnect_bytes(self@));
        Ok(())
    }
}

/// Reading the fields of a `LoginDisconnect` back gives the value that was written,
/// when the strings are short enough to be read.
pub proof fn lemma_login_disconnect_round_trip(v: (Seq<char>,), rest: Seq<u8>)
    requires
        login_disconnect_fits(v),
        encode_utf8(v.0).len() <= crate::wire::MAX_STRING_LEN,
    ensures
        parse_login_disconnect(login_disconnect_bytes(v) + rest) == Some((v, rest)),
{
    let t1 = rest;
    let t0 = string_bytes(v.0) + t1;
    assert(login_disconnect_bytes(v) + rest =~= t0);
    crate::wire::lemma_string_round_trip(v.0, t1);
}

/// The server asks for encryption: its id, its DER public key and a token to echo.
#[derive(Clone, Debug)]
pub struct EncryptionRequest {
    pub server_id: String,
    pub public_key: Vec<u8>,
    pub verify_token: Vec<u8>,
}

impl View for EncryptionRequest {
    type V = (Seq<char>, Seq<u8>, Seq<u8>);

    open spec fn view(&self) -> (Seq<char>, Seq<u8>, Seq<u8>) {
        (self.server_id@, self.public_key@, self.verify_token@)
    }
}

/// The fields of a `EncryptionRequest` at the front of `s`, and what follows them.
pub open spec fn parse_encryption_request(s: Seq<u8>) -> Option<((Seq<char>, Seq<u8>, Seq<u8>), Seq<u8>)> {
    match parse_string(s) {
        Some((a0, s1)) => match parse_prefixed_bytes(s1) {
            Some((a1, s2)) => match parse_prefixed_bytes(s2) {
                Some((a2, s3)) => Some(((a0, a1, a2), s3)),
                None => None,
            },
            None => None,
        },
        None => None,
    }
}

/// The wire form of the fields of a `EncryptionRequest`.
pub open spec fn encryption_request_bytes(v: (Seq<char>, Seq<u8>, Seq<u8>)) -> Seq<u8> {
    string_bytes(v.0) + prefixed_bytes(v.1) + prefixed_bytes(v.2)
}

/// Whether the fields of a `EncryptionRequest` can be written.
pub open spec fn encryption_request_fits(v: (Seq<char>, Seq<u8>, Seq<u8>)) -> bool {
    encode_utf8(v.0).len() <= i32::MAX && v.1.len() <= i32::MAX && v.2.len() <= i32::MAX
}

impl EncryptionRequest {
    /// Read the fields of a `EncryptionRequest` packet.
    pub fn deserialize(rd: &mut Reader) -> (r: Result<EncryptionRequest, ProtoError>)
        ensures
            reads_as_view(r, parse_encryption_request(old(rd).rest()), final(rd).rest()),
    {
        let server_id = read_String(rd)?;
        let public_key = read_prefixed_bytearray(rd)?;
        let verify_token = read_prefixed_bytearray(rd)?;
        Ok(EncryptionRequest { server_id, public_key, verify_token })
    }

    /// Write the fields of this packet.
    pub fn write(&self, w: &mut Vec<u8>) -> (r: Result<(), ProtoError>)
        ensures
            r is Ok <==> encryption_request_fits(self@),
            r is Ok ==> final(w)@ == old(w)@ + encryption_request_bytes(self@),
            r is Err ==> r.unwrap_err() is InvalidOutbound,
    {
        write_String(self.server_id.as_str(), w)?;
        write_prefixed_bytearray(self.public_key.as_slice(), w)?;
        write_prefixed_bytearray(self.verify_token.as_slice(), w)?;
        assert(w@ =~= old(w)@ + encryption_request_bytes(self@));
        Ok(())
    }
}

/// Reading the fields of a `EncryptionRequest` back gives the value that was written,
/// when the strings are short enough to be read.
pub proof fn lemma_encryption_request_round_trip(v: (Seq<char>, Seq<u8>, Seq<u8>), rest: Seq<u8>)
    requires
        encryption_request_fits(v),
        encode_utf8(v.0).len() <= crate::wire::MAX_STRING_LEN,
    ensures
        parse_encryption_request(encryption_request_bytes(v) + rest) == Some((v, rest)),
{
    let t3 = rest;
    let t2 = prefixed_bytes(v.2) + t3;
    let t1 = prefixed_bytes(v.1) + t2;
    let t0 = string_bytes(v.0) + t1;
    assert(encryption_request_bytes(v) + rest =~= t0);
    crate::wire::lemma_string_round_trip(v.0, t1);
    crate::wire::lemma_prefixed_bytes_round_trip(v.1, t2);
    crate::wire::lemma_prefixed_bytes_round_trip(v.2, t3);
}

/// The login succeeded; play starts.
#[derive(Clone, Debug)]
pub struct LoginSuccess {
    pub uuid: String,
    pub username: String,
}

impl View for LoginSuccess {
    type V = (Seq<char>, Seq<char>);

    open spec fn view(&self) -> (Seq<char>, Seq<char>) {
        (self.uuid@, self.username@)
    }
}

/// The fields of a `LoginSuccess` at the front of `s`, and what follows them.
pub open spec fn parse_login_success(s: Seq<u8>) -> Option<((Seq<char>, Seq<char>), Seq<u8>)> {
    match parse_string(s) {
        Some((a0, s1)) => match parse_string(s1) {
            Some((a1, s2)) => Some(((a0, a1), s2)),
            None => None,
        },
        None => None,
    }
}

/// The wire form of the fields of a `LoginSuccess`.
pub open spec fn login_success_bytes(v: (Seq<char>, Seq<char>)) -> Seq<u8> {
    string_bytes(v.0) + string_bytes(v.1)
}

/// Whether the fields of a `LoginSuccess` can be written.
pub open spec fn login_success_fits(v: (Seq<char>, Seq<char>)) -> bool {
    encode_utf8(v.0).len() <= i32::MAX && encode_utf8(v.1).len() <= i32::MAX
}

impl LoginSuccess {
    /// Read the fields of a `LoginSuccess` packet.
    pub fn deserialize(rd: &mut Reader) -> (r: Result<LoginSuccess, ProtoError>)
        ensures
            reads_as_view(r, parse_login_success(old(rd).rest()), final(rd).rest()),
    {
        let uuid = read_String(rd)?;
        let username = read_String(rd)?;
        Ok(LoginSuccess { uuid, username })
    }

    /// Write the fields of this packet.
    pub fn write(&self, w: &mut Vec<u8>) -> (r: Result<(), ProtoError>)
        ensures
            r is Ok <==> login_success_fits(self@),
            r is Ok ==> final(w)@ == old(w)@ + login_success_bytes(self@),
            r is Err ==> r.unwrap_err() is InvalidOutbound,
    {
        write_String(self.uuid.as_str(), w)?;
        write_String(self.username.as_str(), w)?;
        assert(w@ =~= old(w)@ + login_success_bytes(self@));
        Ok(())
    }
}

/// Reading the fields of a `LoginSuccess` back gives the value that was written,
/// when the strings are short enough to be read.
pub proof fn lemma_login_success_round_trip(v: (Seq<char>, Seq<char>), rest: Seq<u8>)
    requires
        login_success_fits(v),
        encode_utf8(v.0).len() <= crate::wire::MAX_STRING_LEN,
        encode_utf8(v.1).len() <= crate::wire::MAX_STRING_LEN,
    ensures
        parse_login_success(login_success_bytes(v) + rest) == Some((v, rest)),
{
    let t2 = rest;
    let t1 = string_bytes(v.1) + t2;
    let t0 = string_bytes(v.0) + t1;
    assert(login_success_bytes(v) + rest =~= t0);
    crate::wire::lemma_string_round_trip(v.0, t1);
    crate::wire::lemma_string_round_trip(v.1, t2);
}

/// Compression is on from here, with this threshold.
#[derive(Clone, Debug)]
pub struct SetCompression {
    pub threshold: i32,
}

impl View for SetCompression {
    type V = (i32,);

    open spec fn view(&self) -> (i32,) {
        (self.threshold,)
    }
}

/// The fields of a `SetCompression` at the front of `s`, and what follows them.
pub open spec fn parse_set_compression(s: Seq<u8>) -> Option<((i32,), Seq<u8>)> {
    match parse_varint(s) {
        Some((a0, s1)) => Some(((a0,), s1)),
        None => None,
    }
}

/// The wire form of the fields of a `SetCompression`.
pub open spec fn set_compression_bytes(v: (i32,)) -> Seq<u8> {
    varint_bytes(v.0)
}

impl SetCompression {
    /// Read the fields of a `SetCompression` packet.
    pub fn deserialize(rd: &mut Reader) -> (r: Result<SetCompression, ProtoError>)
        ensures
            reads_as_view(r, parse_set_compression(old(rd).rest()), final(rd).rest()),
    {
        let threshold = read_varint(rd)?;
        Ok(SetCompression { threshold })
    }

    /// Write the fields of this packet.
    pub fn write(&self, w: &mut Vec<u8>) -> (r: Result<(), ProtoError>)
        ensures
            r is Ok,
            r is Ok ==> final(w)@ == old(w)@ + set_compression_bytes(self@),
            r is Err ==> r.unwrap_err() is InvalidOutbound,
    {
        write_varint(&self.threshold, w)?;
        assert(w@ =~= old(w)@ + set_compression_bytes(self@));
        Ok(())
    }
}

/// Reading the fields of a `SetCompression` back gives the value that was written.
pub proof fn lemma_set_compression_round_trip(v: (i32,), rest: Seq<u8>)
    ensures
        parse_set_compression(set_compression_bytes(v) + rest) == Some((v, rest)),
{
    let t1 = rest;
    let t0 = varint_bytes(v.0) + t1;
    assert(set_compression_bytes(v) + rest =~= t0);
    crate::wire::lemma_varint_round_trip(v.0, t1);
}

/// A chat message, as chat JSON, and where it is shown.
#[derive(Clone, Debug)]
pub struct ChatMessage {
    pub chat: String,
    pub position: i8,
}

impl View for ChatMessage {
    type V = (Seq<char>, i8);

    open spec fn view(&self) -> (Seq<char>, i8) {
        (self.chat@, self.position)
    }
}

/// The fields of a `ChatMessage` at the front of `s`, and what follows them.
pub open spec fn parse_chat_message(s: Seq<u8>) -> Option<((Seq<char>, i8), Seq<u8>)> {
    match parse_string(s) {
        Some((a0, s1)) => match parse_i8(s1) {
            Some((a1, s2)) => Some(((a0, a1), s2)),
            None => None,
        },
        None => None,
    }
}

/// The wire form of the fields of a `ChatMessage`.
pub open spec fn chat_message_bytes(v: (Seq<char>, i8)) -> Seq<u8> {
    string_bytes(v.0) + seq![unsigned_of(v.1 as int, 256) as u8]
}

/// Whether the fields of a `ChatMessage` can be written.
pub open spec fn chat_message_fits(v: (Seq<char>, i8)) -> bool {
    encode_utf8(v.0).len() <= i32::MAX
}

impl ChatMessage {
    /// Read the fields of a `ChatMessage` packet.
    pub fn deserialize(rd: &mut Reader) -> (r: Result<ChatMessage, ProtoError>)
        ensures
            reads_as_view(r, parse_chat_message(old(rd).rest()), final(rd).rest()),
    {
        let chat = read_String(rd)?;
        let position = read_i8(rd)?;
        Ok(ChatMessage { chat, position })
    }

    /// Write the fields of this packet.
    pub fn write(&self, w: &mut Vec<u8>) -> (r: Result<(), ProtoError>)
        ensures
            r is Ok <==> chat_message_fits(self@),
            r is Ok ==> final(w)@ == old(w)@ + chat_message_bytes(self@),
            r is Err ==> r.unwrap_err() is InvalidOutbound,
    {
        write_String(self.chat.as_str(), w)?;
        write_i8(&self.position, w)?;
        assert(w@ =~= old(w)@ + chat_message_bytes(self@));
        Ok(())
    }
}

/// Reading the fields of a `ChatMessage` back gives the value that was written,
/// when the strings are short enough to be read.
pub proof fn lemma_chat_message_round_trip(v: (Seq<char>, i8), rest: Seq<u8>)
    requires
        chat_message_fits(v),
        encode_utf8(v.0).len() <= crate::wire::MAX_STRING_LEN,
    ensures
        parse_chat_message(chat_message_bytes(v) + rest) == Some((v, rest)),
{
    let t2 = rest;
    let t1 = seq![unsigned_of(v.1 as int, 256) as u8] + t2;
    let t0 = string_bytes(v.0) + t1;
    assert(chat_message_bytes(v) + rest =~= t0);
    crate::wire::lemma_string_round_trip(v.0, t1);
    crate::wire::lemma_i8_round_trip(v.1, t2);
}

/// The server ends the game; the reason is chat JSON.
#[derive(Clone, Debug)]
pub struct PlayDisconnect {
    pub reason: String,
}

impl View for PlayDisconnect {
    type V = (Seq<char>,);

    open spec fn view(&self) -> (Seq<char>,) {
        (self.reason@,)
    }
}

/// The fields of a `PlayDisconnect` at the front of `s`, and what follows them.
pub open spec fn parse_play_disconnect(s: Seq<u8>) -> Option<((Seq<char>,), Seq<u8>)> {
    match parse_string(s) {
        Some((a0, s1)) => Some(((a0,), s1)),
        None => None,
    }
}

/// The wire form of the fields of a `PlayDisconnect`.
pub open spec fn play_disconnect_bytes(v: (Seq<char>,)) -> Seq<u8> {
    string_bytes(v.0)
}

/// Whether the fields of a `PlayDisconnect` can be written.
pub open spec fn play_disconnect_fits(v: (Seq<char>,)) -> bool {
    encode_utf8(v.0).len() <= i32::MAX
}

impl PlayDisconnect {
    /// Read the fields of a `PlayDisconnect` packet.
    pub fn deserialize(rd: &mut Reader) -> (r: Result<PlayDisconnect, ProtoError>)
        ensures
            reads_as_view(r, parse_play_disconnect(old(rd).rest()), final(rd).rest()),
    {
        let reason = read_String(rd)?;
        Ok(PlayDisconnect { reason })
    }

    /// Write the fields of this packet.
    pub fn write(&self, w: &mut Vec<u8>) -> (r: Result<(), ProtoError>)
        ensures
            r is Ok <==> play_disconnect_fits(self@),
            r is Ok ==> final(w)@ == old(w)@ + play_disconnect_bytes(self@),
            r is Err ==> r.unwrap_err() is InvalidOutbound,
    {
        write_String(self.reason.as_str(), w)?;
        assert(w@ =~= old(w)@ + play_disconnect_bytes(self@));
        Ok(())
    }
}

/// Reading the fields of a `PlayDisconnect` back gives the value that was written,
/// when the strings are short enough to be read.
pub proof fn lemma_play_disconnect_round_trip(v: (Seq<char>,), rest: Seq<u8>)
    requires
        play_disconnect_fits(v),
        encode_utf8(v.0).len() <= crate::wire::MAX_STRING_LEN,
    ensures
        parse_play_disconnect(play_disconnect_bytes(v) + rest) == Some((v, rest)),
{
    let t1 = rest;
    let t0 = string_bytes(v.0) + t1;
    assert(play_disconnect_bytes(v) + rest =~= t0);
    crate::wire::lemma_string_round_trip(v.0, t1);
}

/// A keep-alive that the client must echo.
#[derive(Clone, Debug)]
pub struct KeepAlive {
    pub id: i64,
}

impl View for KeepAlive {
    type V = (i64,);

    open spec fn view(&self) -> (i64,) {
        (self.id,)
    }
}

/// The fields of a `KeepAlive` at the front of `s`, and what follows them.
pub open spec fn parse_keep_alive(s: Seq<u8>) -> Option<((i64,), Seq<u8>)> {
    match parse_i64(s) {
        Some((a0, s1)) => Some(((a0,), s1)),
        None => None,
    }
}

/// The wire form of the fields of a `KeepAlive`.
pub open spec fn keep_alive_bytes(v: (i64,)) -> Seq<u8> {
    be_bytes(unsigned_of(v.0 as int, 0x1_0000_0000_0000_0000), 8)
}

impl KeepAlive {
    /// Read the fields of a `KeepAlive` packet.
    pub fn deserialize(rd: &mut Reader) -> (r: Result<KeepAlive, ProtoError>)
        ensures
            reads_as_view(r, parse_keep_alive(old(rd).rest()), final(rd).rest()),
    {
        let id = read_i64(rd)?;
        Ok(KeepAlive { id })
    }

    /// Write the fields of this packet.
    pub fn write(&self, w: &mut Vec<u8>) -> (r: Result<(), ProtoError>)
        ensures
            r is Ok,
            r is Ok ==> final(w)@ == old(w)@ + keep_alive_bytes(self@),
            r is Err ==> r.unwrap_err() is InvalidOutbound,
    {
        write_i64(&self.id, w)?;
        assert(w@ =~= old(w)@ + keep_alive_bytes(self@));
        Ok(())
    }
}

/// Reading the fields of a `KeepAlive` back gives the value that was written.
pub proof fn lemma_keep_alive_round_trip(v: (i64,), rest: Seq<u8>)
    ensures
        parse_keep_alive(keep_alive_bytes(v) + rest) == Some((v, rest)),
{
    let t1 = rest;
    let t0 = be_bytes(unsigned_of(v.0 as int, 0x1_0000_0000_0000_0000), 8) + t1;
    assert(keep_alive_bytes(v) + rest =~= t0);
    crate::wire::lemma_i64_round_trip(v.0, t1);
}

/// A particle effect; coordinates are `f64` bit patterns, offsets and data `f32` bit patterns, and the particle-specific data is kept as bytes.
#[derive(Clone, Debug)]
pub struct Particle {
    pub particle_id: i32,
    pub use_long_distance: bool,
    pub x: u64,
    pub y: u64,
    pub z: u64,
    pub offset_x: u32,
    pub offset_y: u32,
    pub offset_z: u32,
    pub particle_data: u32,
    pub count: i32,
    pub data: Vec<u8>,
}

impl View for Particle {
    type V = (i32, bool, u64, u64, u64, u32, u32, u32, u32, i32, Seq<u8>);

    open spec fn view(&self) -> (i32, bool, u64, u64, u64, u32, u32, u32, u32, i32, Seq<u8>) {
        (self.particle_id, self.use_long_distance, self.x, self.y, self.z, self.offset_x, self.offset_y, self.offset_z, self.particle_data, self.count, self.data@)
    }
}

/// The fields of a `Particle` at the front of `s`, and what follows them.
pub open spec fn parse_particle(s: Seq<u8>) -> Option<((i32, bool, u64, u64, u64, u32, u32, u32, u32, i32, Seq<u8>), Seq<u8>)> {
    match parse_i32(s) {
        Some((a0, s1)) => match parse_bool(s1) {
            Some((a1, s2)) => match parse_u64(s2) {
                Some((a2, s3)) => match parse_u64(s3) {
                    Some((a3, s4)) => match parse_u64(s4) {
                        Some((a4, s5)) => match parse_u32(s5) {
                            Some((a5, s6)) => match parse_u32(s6) {
                                Some((a6, s7)) => match parse_u32(s7) {
                                    Some((a7, s8)) => match parse_u32(s8) {
                                        Some((a8, s9)) => match parse_i32(s9) {
                                            Some((a9, s10)) => match parse_rest(s10) {
                                                Some((a10, s11)) => Some(((a0, a1, a2, a3, a4, a5, a6, a7, a8, a9, a10), s11)),
                                                None => None,
                                            },
                                            None => None,
                                        },
                                        None => None,
                                    },
                                    None => None,
                                },
                                None => None,
                            },
                            None => None,
                        },
                        None => None,
                    },
                    None => None,
                },
                None => None,
            },
            None => None,
        },
        None => None,
    }
}

/// The wire form of the fields of a `Particle`.
pub open spec fn particle_bytes(v: (i32, bool, u64, u64, u64, u32, u32, u32, u32, i32, Seq<u8>)) -> Seq<u8> {
    be_bytes(unsigned_of(v.0 as int, 0x1_0000_0000), 4) + bool_bytes(v.1) + be_bytes(v.2 as nat, 8) + be_bytes(v.3 as nat, 8) + be_bytes(v.4 as nat, 8) + be_bytes(v.5 as nat, 4) + be_bytes(v.6 as nat, 4) + be_bytes(v.7 as nat, 4) + be_bytes(v.8 as nat, 4) + be_bytes(unsigned_of(v.9 as int, 0x1_0000_0000), 4) + v.10
}

impl Particle {
    /// Read the fields of a `Particle` packet.
    pub fn deserialize(rd: &mut Reader) -> (r: Result<Particle, ProtoError>)
        ensures
            reads_as_view(r, parse_particle(old(rd).rest()), final(rd).rest()),
    {
        let particle_id = read_i32(rd)?;
        let use_long_distance = read_bool(rd)?;
        let x = read_u64(rd)?;
        let y = read_u64(rd)?;
        let z = read_u64(rd)?;
        let offset_x = read_u32(rd)?;
        let offset_y = read_u32(rd)?;
        let offset_z = read_u32(rd)?;
        let particle_data = read_u32(rd)?;
        let count = read_i32(rd)?;
        let data = read_bytearray_to_end(rd)?;
        Ok(Particle { particle_id, use_long_distance, x, y, z, offset_x, offset_y, offset_z, particle_data, count, data })
    }

    /// Write the fields of this packet.
    pub fn write(&self, w: &mut Vec<u8>) -> (r: Result<(), ProtoError>)
        ensures
            r is Ok,
            r is Ok ==> final(w)@ == old(w)@ + particle_bytes(self@),
            r is Err ==> r.unwrap_err() is InvalidOutbound,
    {
        write_i32(&self.particle_id, w)?;
        write_bool(&self.use_long_distance, w)?;
        write_u64(&self.x, w)?;
        write_u64(&self.y, w)?;
        write_u64(&self.z, w)?;
        write_u32(&self.offset_x, w)?;
        write_u32(&self.offset_y, w)?;
        write_u32(&self.offset_z, w)?;
        write_u32(&self.particle_data, w)?;
        write_i32(&self.count, w)?;
        write_bytearray(&self.data, w)?;
        assert(w@ =~= old(w)@ + particle_bytes(self@));
        Ok(())
    }
}

/// Reading the fields of a `Particle` back gives the value that was written.
/// The last field takes all bytes that follow.
pub proof fn lemma_particle_round_trip(v: (i32, bool, u64, u64, u64, u32, u32, u32, u32, i32, Seq<u8>))
    ensures
        parse_particle(particle_bytes(v) + Seq::<u8>::empty()) == Some((v, Seq::<u8>::empty())),
{
    let t11 = Seq::<u8>::empty();
    let t10 = v.10 + t11;
    let t9 = be_bytes(unsigned_of(v.9 as int, 0x1_0000_0000), 4) + t10;
    let t8 = be_bytes(v.8 as nat, 4) + t9;
    let t7 = be_bytes(v.7 as nat, 4) + t8;
    let t6 = be_bytes(v.6 as nat, 4) + t7;
    let t5 = be_bytes(v.5 as nat, 4) + t6;
    let t4 = be_bytes(v.4 as nat, 8) + t5;
    let t3 = be_bytes(v.3 as nat, 8) + t4;
    let t2 = be_bytes(v.2 as nat, 8) + t3;
    let t1 = bool_bytes(v.1) + t2;
    let t0 = be_bytes(unsigned_of(v.0 as int, 0x1_0000_0000), 4) + t1;
    assert(particle_bytes(v) + Seq::<u8>::empty() =~= t0);
    crate::wire::lemma_i32_round_trip(v.0, t1);
    crate::wire::lemma_bool_round_trip(v.1, t2);
    crate::wire::lemma_u64_round_trip(v.2, t3);
    crate::wire::lemma_u64_round_trip(v.3, t4);
    crate::wire::lemma_u64_round_trip(v.4, t5);
    crate::wire::lemma_u32_round_trip(v.5, t6);
    crate::wire::lemma_u32_round_trip(v.6, t7);
    crate::wire::lemma_u32_round_trip(v.7, t8);
    crate::wire::lemma_u32_round_trip(v.8, t9);
    crate::wire::lemma_i32_round_trip(v.9, t10);
    assert(t10 =~= v.10);
}

/// The player's abilities; the speeds are `f32` bit patterns.
#[derive(Clone, Debug)]
pub struct PlayerAbilities {
    pub flags: i8,
    pub flying_speed: u32,
    pub field_of_view: u32,
}

impl View for PlayerAbilities {
    type V = (i8, u32, u32);

    open spec fn view(&self) -> (i8, u32, u32) {
        (self.flags, self.flying_speed, self.field_of_view)
    }
}

/// The fields of a `PlayerAbilities` at the front of `s`, and what follows them.
pub open spec fn parse_player_abilities(s: Seq<u8>) -> Option<((i8, u32, u32), Seq<u8>)> {
    match parse_i8(s) {
        Some((a0, s1)) => match parse_u32(s1) {
            Some((a1, s2)) => match parse_u32(s2) {
                Some((a2, s3)) => Some(((a0, a1, a2), s3)),
                None => None,
            },
            None => None,
        },
        None => None,
    }
}

/// The wire form of the fields of a `PlayerAbilities`.
pub open spec fn player_abilities_bytes(v: (i8, u32, u32)) -> Seq<u8> {
    seq![unsigned_of(v.0 as int, 256) as u8] + be_bytes(v.1 as nat, 4) + be_bytes(v.2 as nat, 4)
}

impl PlayerAbilities {
    /// Read the fields of a `PlayerAbilities` packet.
    pub fn deserialize(rd: &mut Reader) -> (r: Result<PlayerAbilities, ProtoError>)
        ensures
            reads_as_view(r, parse_player_abilities(old(rd).rest()), final(rd).rest()),
    {
        let flags = read_i8(rd)?;
        let flying_speed = read_u32(rd)?;
        let field_of_view = read_u32(rd)?;
        Ok(PlayerAbilities { flags, flying_speed, field_of_view })
    }

    /// Write the fields of this packet.
    pub fn write(&self, w: &mut Vec<u8>) -> (r: Result<(), ProtoError>)
        ensures
            r is Ok,
            r is Ok ==> final(w)@ == old(w)@ + player_abilities_bytes(self@),
            r is Err ==> r.unwrap_err() is InvalidOutbound,
    {
        write_i8(&self.flags, w)?;
        write_u32(&self.flying_speed, w)?;
        write_u32(&self.field_of_view, w)?;
        assert(w@ =~= old(w)@ + player_abilities_bytes(self@));
        Ok(())
    }
}

/// Reading the fields of a `PlayerAbilities` back gives the value that was written.
pub proof fn lemma_player_abilities_round_trip(v: (i8, u32, u32), rest: Seq<u8>)
    ensures
        parse_player_abilities(player_abilities_bytes(v) + rest) == Some((v, rest)),
{
    let t3 = rest;
    let t2 = be_bytes(v.2 as nat, 4) + t3;
    let t1 = be_bytes(v.1 as nat, 4) + t2;
    let t0 = seq![unsigned_of(v.0 as int, 256) as u8] + t1;
    assert(player_abilities_bytes(v) + rest =~= t0);
    crate::wire::lemma_i8_round_trip(v.0, t1);
    crate::wire::lemma_u32_round_trip(v.1, t2);
    crate::wire::lemma_u32_round_trip(v.2, t3);
}

/// One list element at the front of `s`, and what follows it.
pub open spec fn parse_stat(s: Seq<u8>) -> Option<((Seq<char>, i32), Seq<u8>)> {
    match parse_string(s) {
        Some((a0, s1)) => match parse_varint(s1) {
            Some((a1, s2)) => Some(((a0, a1), s2)),
            None => None,
        },
        None => None,
    }
}

/// The wire form of one list element.
pub open spec fn stat_bytes(v: (Seq<char>, i32)) -> Seq<u8> {
    string_bytes(v.0) + varint_bytes(v.1)
}

/// Whether one list element can be written.
pub open spec fn stat_fits(v: (Seq<char>, i32)) -> bool {
    encode_utf8(v.0).len() <= i32::MAX
}

/// Read one list element.
fn read_stat(rd: &mut Reader) -> (r: Result<(String, i32), ProtoError>)
    ensures
        match r {
            Ok(x) => parse_stat(old(rd).rest()) == Some(((x.0@, x.1), final(rd).rest())),
            Err(e) => parse_stat(old(rd).rest()) is None && e is Malformed,
        },
{
    let a0 = read_String(rd)?;
    let a1 = read_varint(rd)?;
    Ok((a0, a1))
}

/// Write one list element.
fn write_stat(x: &(String, i32), w: &mut Vec<u8>) -> (r: Result<(), ProtoError>)
    ensures
        r is Ok <==> stat_fits((x.0@, x.1)),
        r is Ok ==> final(w)@ == old(w)@ + stat_bytes((x.0@, x.1)),
        r is Err ==> r.unwrap_err() is InvalidOutbound,
{
    write_String(x.0.as_str(), w)?;
    write_varint(&x.1, w)?;
    assert(w@ =~= old(w)@ + stat_bytes((x.0@, x.1)));
    Ok(())
}

/// Whether the strings of one list element are short enough to be read.
pub open spec fn stat_readable(v: (Seq<char>, i32)) -> bool {
    encode_utf8(v.0).len() <= crate::wire::MAX_STRING_LEN
}

/// One list element is read back as written.
pub proof fn lemma_stat_round_trip(v: (Seq<char>, i32), rest: Seq<u8>)
    requires
        stat_fits(v),
        stat_readable(v),
    ensures
        parse_stat(stat_bytes(v) + rest) == Some((v, rest)),
{
    let t2 = rest;
    let t1 = varint_bytes(v.1) + t2;
    let t0 = string_bytes(v.0) + t1;
    assert(stat_bytes(v) + rest =~= t0);
    crate::wire::lemma_string_round_trip(v.0, t1);
    crate::wire::lemma_varint_round_trip(v.1, t2);
}

/// `k` elements, one after the other.
pub open spec fn parse_stats(s: Seq<u8>, k: nat) -> Option<(Seq<(Seq<char>, i32)>, Seq<u8>)>
    decreases k,
{
    if k == 0 {
        Some((seq![], s))
    } else {
        match parse_stats(s, (k - 1) as nat) {
            Some((vs, r)) => match parse_stat(r) {
                Some((v, r2)) => Some((vs.push(v), r2)),
                None => None,
            },
            None => None,
        }
    }
}

/// The wire form of a list, without its count.
pub open spec fn stats_bytes(vs: Seq<(Seq<char>, i32)>) -> Seq<u8>
    decreases vs.len(),
{
    if vs.len() == 0 {
        seq![]
    } else {
        stats_bytes(vs.drop_last()) + stat_bytes(vs.last())
    }
}

/// Whether every element of a list can be written.
pub open spec fn stats_fits(vs: Seq<(Seq<char>, i32)>) -> bool {
    forall|i: int| 0 <= i < vs.len() ==> stat_fits(#[trigger] vs[i])
}

/// Whether every element of a list can be read back.
pub open spec fn stats_readable(vs: Seq<(Seq<char>, i32)>) -> bool {
    forall|i: int| 0 <= i < vs.len() ==> stat_readable(#[trigger] vs[i])
}

/// Reading back what was written for a list gives the list.
pub proof fn lemma_stats_round_trip(vs: Seq<(Seq<char>, i32)>, rest: Seq<u8>)
    requires
        stats_fits(vs),
        stats_readable(vs),
    ensures
        parse_stats(stats_bytes(vs) + rest, vs.len()) == Some((vs, rest)),
    decreases vs.len(),
{
    if vs.len() == 0 {
        assert(stats_bytes(vs) + rest =~= rest);
        assert(vs =~= Seq::<(Seq<char>, i32)>::empty());
    } else {
        let init = vs.drop_last();
        let last = vs.last();
        assert forall|i: int| 0 <= i < init.len() implies stat_fits(#[trigger] init[i]) && stat_readable(init[i]) by {
            assert(init[i] == vs[i]);
        }
        assert(stat_fits(vs[vs.len() - 1]) && stat_readable(vs[vs.len() - 1]));
        let t = stat_bytes(last) + rest;
        lemma_stats_round_trip(init, t);
        lemma_stat_round_trip(last, rest);
        assert(stats_bytes(vs) + rest =~= stats_bytes(init) + t);
        assert(init.push(last) =~= vs);
        assert(init.len() == (vs.len() - 1) as nat);
    }
}

/// What a list of elements looks like as a view.
pub open spec fn stats_view(v: Seq<(String, i32)>) -> Seq<(Seq<char>, i32)> {
    Seq::new(v.len(), |i: int| (v[i].0@, v[i].1))
}

proof fn lemma_stats_none(s: Seq<u8>, i: nat, k: nat)
    requires
        i <= k,
        parse_stats(s, i) is None,
    ensures
        parse_stats(s, k) is None,
    decreases k,
{
    if i < k {
        lemma_stats_none(s, i, (k - 1) as nat);
    }
}

/// Read `count` list elements.
fn read_stats(rd: &mut Reader, count: i32) -> (r: Result<Vec<(String, i32)>, ProtoError>)
    requires
        count >= 0,
    ensures
        match r {
            Ok(v) => parse_stats(old(rd).rest(), count as nat) == Some((stats_view(v@), final(rd).rest())),
            Err(e) => parse_stats(old(rd).rest(), count as nat) is None && e is Malformed,
        },
{
    let start = Ghost(rd.rest());
    let mut out: Vec<(String, i32)> = Vec::new();
    let mut i: i32 = 0;
    assert(stats_view(out@) =~= Seq::<(Seq<char>, i32)>::empty());
    while i < count
        invariant
            0 <= i <= count,
            start@ == old(rd).rest(),
            parse_stats(start@, i as nat) == Some((stats_view(out@), rd.rest())),
        decreases count - i,
    {
        let before = Ghost(rd.rest());
        match read_stat(rd) {
            Ok(x) => {
                let ghost prev = out@;
                out.push(x);
                assert(stats_view(out@) =~= stats_view(prev).push((x.0@, x.1)));
            },
            Err(e) => {
                proof {
                    assert(parse_stats(start@, (i + 1) as nat) is None);
                    lemma_stats_none(start@, (i + 1) as nat, count as nat);
                }
                return Err(e);
            },
        }
        i = i + 1;
    }
    Ok(out)
}

/// Write the elements of a list, without its count.
fn write_stats(v: &Vec<(String, i32)>, w: &mut Vec<u8>) -> (r: Result<(), ProtoError>)
    ensures
        r is Ok <==> stats_fits(stats_view(v@)),
        r is Ok ==> final(w)@ == old(w)@ + stats_bytes(stats_view(v@)),
        r is Err ==> r.unwrap_err() is InvalidOutbound,
{
    let mut i: usize = 0;
    assert(stats_view(v@).take(0) =~= Seq::<(Seq<char>, i32)>::empty());
    while i < v.len()
        invariant
            i <= v@.len(),
            w@ == old(w)@ + stats_bytes(stats_view(v@).take(i as int)),
            forall|j: int| 0 <= j < i ==> stat_fits(#[trigger] stats_view(v@)[j]),
        decreases v.len() - i,
    {
        let ghost before = w@;
        match write_stat(&v[i], w) {
            Ok(()) => {},
            Err(e) => {
                assert(!stat_fits(stats_view(v@)[i as int]));
                return Err(e);
            },
        }
        proof {
            let vs = stats_view(v@);
            assert(vs.take(i + 1).drop_last() =~= vs.take(i as int));
            assert(vs.take(i + 1).last() == vs[i as int]);
        }
        i = i + 1;
        assert(w@ =~= old(w)@ + stats_bytes(stats_view(v@).take(i as int)));
    }
    assert(stats_view(v@).take(v@.len() as int) =~= stats_view(v@));
    Ok(())
}

/// One list element at the front of `s`, and what follows it.
pub open spec fn parse_block_offset(s: Seq<u8>) -> Option<((i8, i8, i8), Seq<u8>)> {
    match parse_i8(s) {
        Some((a0, s1)) => match parse_i8(s1) {
            Some((a1, s2)) => match parse_i8(s2) {
                Some((a2, s3)) => Some(((a0, a1, a2), s3)),
                None => None,
            },
            None => None,
        },
        None => None,
    }
}

/// The wire form of one list element.
pub open spec fn block_offset_bytes(v: (i8, i8, i8)) -> Seq<u8> {
    seq![unsigned_of(v.0 as int, 256) as u8] + seq![unsigned_of(v.1 as int, 256) as u8] + seq![unsigned_of(v.2 as int, 256) as u8]
}

/// Whether one list element can be written.
pub open spec fn block_offset_fits(v: (i8, i8, i8)) -> bool {
    true
}

/// Read one list element.
fn read_block_offset(rd: &mut Reader) -> (r: Result<(i8, i8, i8), ProtoError>)
    ensures
        match r {
            Ok(x) => parse_block_offset(old(rd).rest()) == Some(((x.0, x.1, x.2), final(rd).rest())),
            Err(e) => parse_block_offset(old(rd).rest()) is None && e is Malformed,
        },
{
    let a0 = read_i8(rd)?;
    let a1 = read_i8(rd)?;
    let a2 = read_i8(rd)?;
    Ok((a0, a1, a2))
}

/// Write one list element.
fn write_block_offset(x: &(i8, i8, i8), w: &mut Vec<u8>) -> (r: Result<(), ProtoError>)
    ensures
        r is Ok <==> block_offset_fits((x.0, x.1, x.2)),
        r is Ok ==> final(w)@ == old(w)@ + block_offset_bytes((x.0, x.1, x.2)),
        r is Err ==> r.unwrap_err() is InvalidOutbound,
{
    write_i8(&x.0, w)?;
    write_i8(&x.1, w)?;
    write_i8(&x.2, w)?;
    assert(w@ =~= old(w)@ + block_offset_bytes((x.0, x.1, x.2)));
    Ok(())
}

/// Whether the strings of one list element are short enough to be read.
pub open spec fn block_offset_readable(v: (i8, i8, i8)) -> bool {
    true
}

/// One list element is read back as written.
pub proof fn lemma_block_offset_round_trip(v: (i8, i8, i8), rest: Seq<u8>)
    requires
        block_offset_fits(v),
        block_offset_readable(v),
    ensures
        parse_block_offset(block_offset_bytes(v) + rest) == Some((v, rest)),
{
    let t3 = rest;
    let t2 = seq![unsigned_of(v.2 as int, 256) as u8] + t3;
    let t1 = seq![unsigned_of(v.1 as int, 256) as u8] + t2;
    let t0 = seq![unsigned_of(v.0 as int, 256) as u8] + t1;
    assert(block_offset_bytes(v) + rest =~= t0);
    crate::wire::lemma_i8_round_trip(v.0, t1);
    crate::wire::lemma_i8_round_trip(v.1, t2);
    crate::wire::lemma_i8_round_trip(v.2, t3);
}

/// `k` elements, one after the other.
pub open spec fn parse_block_offsets(s: Seq<u8>, k: nat) -> Option<(Seq<(i8, i8, i8)>, Seq<u8>)>
    decreases k,
{
    if k == 0 {
        Some((seq![], s))
    } else {
        match parse_block_offsets(s, (k - 1) as nat) {
            Some((vs, r)) => match parse_block_offset(r) {
                Some((v, r2)) => Some((vs.push(v), r2)),
                None => None,
            },
            None => None,
        }
    }
}

/// The wire form of a list, without its count.
pub open spec fn block_offsets_bytes(vs: Seq<(i8, i8, i8)>) -> Seq<u8>
    decreases vs.len(),
{
    if vs.len() == 0 {
        seq![]
    } else {
        block_offsets_bytes(vs.drop_last()) + block_offset_bytes(vs.last())
    }
}

/// Whether every element of a list can be written.
pub open spec fn block_offsets_fits(vs: Seq<(i8, i8, i8)>) -> bool {
    forall|i: int| 0 <= i < vs.len() ==> block_offset_fits(#[trigger] vs[i])
}

/// Whether every element of a list can be read back.
pub open spec fn block_offsets_readable(vs: Seq<(i8, i8, i8)>) -> bool {
    forall|i: int| 0 <= i < vs.len() ==> block_offset_readable(#[trigger] vs[i])
}

/// Reading back what was written for a list gives the list.
pub proof fn lemma_block_offsets_round_trip(vs: Seq<(i8, i8, i8)>, rest: Seq<u8>)
    requires
        block_offsets_fits(vs),
        block_offsets_readable(vs),
    ensures
        parse_block_offsets(block_offsets_bytes(vs) + rest, vs.len()) == Some((vs, rest)),
    decreases vs.len(),
{
    if vs.len() == 0 {
        assert(block_offsets_bytes(vs) + rest =~= rest);
        assert(vs =~= Seq::<(i8, i8, i8)>::empty());
    } else {
        let init = vs.drop_last();
        let last = vs.last();
        assert forall|i: int| 0 <= i < init.len() implies block_offset_fits(#[trigger] init[i]) && block_offset_readable(init[i]) by {
            assert(init[i] == vs[i]);
        }
        assert(block_offset_fits(vs[vs.len() - 1]) && block_offset_readable(vs[vs.len() - 1]));
        let t = block_offset_bytes(last) + rest;
        lemma_block_offsets_round_trip(init, t);
        lemma_block_offset_round_trip(last, rest);
        assert(block_offsets_bytes(vs) + rest =~= block_offsets_bytes(init) + t);
        assert(init.push(last) =~= vs);
        assert(init.len() == (vs.len() - 1) as nat);
    }
}

/// What a list of elements looks like as a view.
pub open spec fn block_offsets_view(v: Seq<(i8, i8, i8)>) -> Seq<(i8, i8, i8)> {
    Seq::new(v.len(), |i: int| (v[i].0, v[i].1, v[i].2))
}

proof fn lemma_block_offsets_none(s: Seq<u8>, i: nat, k: nat)
    requires
        i <= k,
        parse_block_offsets(s, i) is None,
    ensures
        parse_block_offsets(s, k) is None,
    decreases k,
{
    if i < k {
        lemma_block_offsets_none(s, i, (k - 1) as nat);
    }
}

/// Read `count` list elements.
fn read_block_offsets(rd: &mut Reader, count: i32) -> (r: Result<Vec<(i8, i8, i8)>, ProtoError>)
    requires
        count >= 0,
    ensures
        match r {
            Ok(v) => parse_block_offsets(old(rd).rest(), count as nat) == Some((block_offsets_view(v@), final(rd).rest())),
            Err(e) => parse_block_offsets(old(rd).rest(), count as nat) is None && e is Malformed,
        },
{
    let start = Ghost(rd.rest());
    let mut out: Vec<(i8, i8, i8)> = Vec::new();
    let mut i: i32 = 0;
    assert(block_offsets_view(out@) =~= Seq::<(i8, i8, i8)>::empty());
    while i < count
        invariant
            0 <= i <= count,
            start@ == old(rd).rest(),
            parse_block_offsets(start@, i as nat) == Some((block_offsets_view(out@), rd.rest())),
        decreases count - i,
    {
        let before = Ghost(rd.rest());
        match read_block_offset(rd) {
            Ok(x) => {
                let ghost prev = out@;
                out.push(x);
                assert(block_offsets_view(out@) =~= block_offsets_view(prev).push((x.0, x.1, x.2)));
            },
            Err(e) => {
                proof {
                    assert(parse_block_offsets(start@, (i + 1) as nat) is None);
                    lemma_block_offsets_none(start@, (i + 1) as nat, count as nat);
                }
                return Err(e);
            },
        }
        i = i + 1;
    }
    Ok(out)
}

/// Write the elements of a list, without its count.
fn write_block_offsets(v: &Vec<(i8, i8, i8)>, w: &mut Vec<u8>) -> (r: Result<(), ProtoError>)
    ensures
        r is Ok <==> block_offsets_fits(block_offsets_view(v@)),
        r is Ok ==> final(w)@ == old(w)@ + block_offsets_bytes(block_offsets_view(v@)),
        r is Err ==> r.unwrap_err() is InvalidOutbound,
{
    let mut i: usize = 0;
    assert(block_offsets_view(v@).take(0) =~= Seq::<(i8, i8, i8)>::empty());
    while i < v.len()
        invariant
            i <= v@.len(),
            w@ == old(w)@ + block_offsets_bytes(block_offsets_view(v@).take(i as int)),
            forall|j: int| 0 <= j < i ==> block_offset_fits(#[trigger] block_offsets_view(v@)[j]),
        decreases v.len() - i,
    {
        let ghost before = w@;
        match write_block_offset(&v[i], w) {
            Ok(()) => {},
            Err(e) => {
                assert(!block_offset_fits(block_offsets_view(v@)[i as int]));
                return Err(e);
            },
        }
        proof {
            let vs = block_offsets_view(v@);
            assert(vs.take(i + 1).drop_last() =~= vs.take(i as int));
            assert(vs.take(i + 1).last() == vs[i as int]);
        }
        i = i + 1;
        assert(w@ =~= old(w)@ + block_offsets_bytes(block_offsets_view(v@).take(i as int)));
    }
    assert(block_offsets_view(v@).take(v@.len() as int) =~= block_offsets_view(v@));
    Ok(())
}

/// One list element at the front of `s`, and what follows it.
pub open spec fn parse_name(s: Seq<u8>) -> Option<(Seq<char>, Seq<u8>)> {
    parse_string(s)
}

/// The wire form of one list element.
pub open spec fn name_bytes(v: Seq<char>) -> Seq<u8> {
    string_bytes(v)
}

/// Whether one list element can be written.
pub open spec fn name_fits(v: Seq<char>) -> bool {
    encode_utf8(v).len() <= i32::MAX
}

/// Read one list element.
fn read_name(rd: &mut Reader) -> (r: Result<String, ProtoError>)
    ensures
        match r {
            Ok(x) => parse_name(old(rd).rest()) == Some((x@, final(rd).rest())),
            Err(e) => parse_name(old(rd).rest()) is None && e is Malformed,
        },
{
    read_String(rd)
}

/// Write one list element.
fn write_name(x: &String, w: &mut Vec<u8>) -> (r: Result<(), ProtoError>)
    ensures
        r is Ok <==> name_fits(x@),
        r is Ok ==> final(w)@ == old(w)@ + name_bytes(x@),
        r is Err ==> r.unwrap_err() is InvalidOutbound,
{
    write_String((*x).as_str(), w)
}

/// Whether the strings of one list element are short enough to be read.
pub open spec fn name_readable(v: Seq<char>) -> bool {
    encode_utf8(v).len() <= crate::wire::MAX_STRING_LEN
}

/// One list element is read back as written.
pub proof fn lemma_name_round_trip(v: Seq<char>, rest: Seq<u8>)
    requires
        name_fits(v),
        name_readable(v),
    ensures
        parse_name(name_bytes(v) + rest) == Some((v, rest)),
{
    crate::wire::lemma_string_round_trip(v, rest);
}

/// `k` elements, one after the other.
pub open spec fn parse_names(s: Seq<u8>, k: nat) -> Option<(Seq<Seq<char>>, Seq<u8>)>
    decreases k,
{
    if k == 0 {
        Some((seq![], s))
    } else {
        match parse_names(s, (k - 1) as nat) {
            Some((vs, r)) => match parse_name(r) {
                Some((v, r2)) => Some((vs.push(v), r2)),
                None => None,
            },
            None => None,
        }
    }
}

/// The wire form of a list, without its count.
pub open spec fn names_bytes(vs: Seq<Seq<char>>) -> Seq<u8>
    decreases vs.len(),
{
    if vs.len() == 0 {
        seq![]
    } else {
        names_bytes(vs.drop_last()) + name_bytes(vs.last())
    }
}

/// Whether every element of a list can be written.
pub open spec fn names_fits(vs: Seq<Seq<char>>) -> bool {
    forall|i: int| 0 <= i < vs.len() ==> name_fits(#[trigger] vs[i])
}

/// Whether every element of a list can be read back.
pub open spec fn names_readable(vs: Seq<Seq<char>>) -> bool {
    forall|i: int| 0 <= i < vs.len() ==> name_readable(#[trigger] vs[i])
}

/// Reading back what was written for a list gives the list.
pub proof fn lemma_names_round_trip(vs: Seq<Seq<char>>, rest: Seq<u8>)
    requires
        names_fits(vs),
        names_readable(vs),
    ensures
        parse_names(names_bytes(vs) + rest, vs.len()) == Some((vs, rest)),
    decreases vs.len(),
{
    if vs.len() == 0 {
        assert(names_bytes(vs) + rest =~= rest);
        assert(vs =~= Seq::<Seq<char>>::empty());
    } else {
        let init = vs.drop_last();
        let last = vs.last();
        assert forall|i: int| 0 <= i < init.len() implies name_fits(#[trigger] init[i]) && name_readable(init[i]) by {
            assert(init[i] == vs[i]);
        }
        assert(name_fits(vs[vs.len() - 1]) && name_readable(vs[vs.len() - 1]));
        let t = name_bytes(last) + rest;
        lemma_names_round_trip(init, t);
        lemma_name_round_trip(last, rest);
        assert(names_bytes(vs) + rest =~= names_bytes(init) + t);
        assert(init.push(last) =~= vs);
        assert(init.len() == (vs.len() - 1) as nat);
    }
}

/// What a list of elements looks like as a view.
pub open spec fn names_view(v: Seq<String>) -> Seq<Seq<char>> {
    Seq::new(v.len(), |i: int| v[i]@)
}

proof fn lemma_names_none(s: Seq<u8>, i: nat, k: nat)
    requires
        i <= k,
        parse_names(s, i) is None,
    ensures
        parse_names(s, k) is None,
    decreases k,
{
    if i < k {
        lemma_names_none(s, i, (k - 1) as nat);
    }
}

/// Read `count` list elements.
fn read_names(rd: &mut Reader, count: i32) -> (r: Result<Vec<String>, ProtoError>)
    requires
        count >= 0,
    ensures
        match r {
            Ok(v) => parse_names(old(rd).rest(), count as nat) == Some((names_view(v@), final(rd).rest())),
            Err(e) => parse_names(old(rd).rest(), count as nat) is None && e is Malformed,
        },
{
    let start = Ghost(rd.rest());
    let mut out: Vec<String> = Vec::new();
    let mut i: i32 = 0;
    assert(names_view(out@) =~= Seq::<Seq<char>>::empty());
    while i < count
        invariant
            0 <= i <= count,
            start@ == old(rd).rest(),
            parse_names(start@, i as nat) == Some((names_view(out@), rd.rest())),
        decreases count - i,
    {
        let before = Ghost(rd.rest());
        match read_name(rd) {
            Ok(x) => {
                let ghost prev = out@;
                out.push(x);
                assert(names_view(out@) =~= names_view(prev).push(x@));
            },
            Err(e) => {
                proof {
                    assert(parse_names(start@, (i + 1) as nat) is None);
                    lemma_names_none(start@, (i + 1) as nat, count as nat);
                }
                return Err(e);
            },
        }
        i = i + 1;
    }
    Ok(out)
}

/// Write the elements of a list, without its count.
fn write_names(v: &Vec<String>, w: &mut Vec<u8>) -> (r: Result<(), ProtoError>)
    ensures
        r is Ok <==> names_fits(names_view(v@)),
        r is Ok ==> final(w)@ == old(w)@ + names_bytes(names_view(v@)),
        r is Err ==> r.unwrap_err() is InvalidOutbound,
{
    let mut i: usize = 0;
    assert(names_view(v@).take(0) =~= Seq::<Seq<char>>::empty());
    while i < v.len()
        invariant
            i <= v@.len(),
            w@ == old(w)@ + names_bytes(names_view(v@).take(i as int)),
            forall|j: int| 0 <= j < i ==> name_fits(#[trigger] names_view(v@)[j]),
        decreases v.len() - i,
    {
        let ghost before = w@;
        match write_name(&v[i], w) {
            Ok(()) => {},
            Err(e) => {
                assert(!name_fits(names_view(v@)[i as int]));
                return Err(e);
            },
        }
        proof {
            let vs = names_view(v@);
            assert(vs.take(i + 1).drop_last() =~= vs.take(i as int));
            assert(vs.take(i + 1).last() == vs[i as int]);
        }
        i = i + 1;
        assert(w@ =~= old(w)@ + names_bytes(names_view(v@).take(i as int)));
    }
    assert(names_view(v@).take(v@.len() as int) =~= names_view(v@));
    Ok(())
}


/// What an optional string looks like as a view.
pub open spec fn opt_str(o: Option<String>) -> Option<Seq<char>> {
    match o {
        Some(s) => Some(s@),
        None => None,
    }
}

/// A string fits on the wire when its byte count fits in an `i32`.
pub open spec fn str_fits(cs: Seq<char>) -> bool {
    encode_utf8(cs).len() <= i32::MAX
}

/// Whether two strings hold the same characters.
pub fn str_eq(a: &str, b: &str) -> (r: bool)
    ensures
        r == (a@ == b@),
{
    let n = a.unicode_len();
    if n != b.unicode_len() {
        return false;
    }
    let mut i: usize = 0;
    while i < n
        invariant
            i <= n,
            n == a@.len(),
            n == b@.len(),
            a@.take(i as int) == b@.take(i as int),
        decreases n - i,
    {
        if a.get_char(i) != b.get_char(i) {
            assert(a@[i as int] != b@[i as int]);
            return false;
        }
        assert(a@.take(i + 1) =~= a@.take(i as int).push(a@[i as int]));
        assert(b@.take(i + 1) =~= b@.take(i as int).push(b@[i as int]));
        i = i + 1;
    }
    assert(a@.take(n as int) =~= a@);
    assert(b@.take(n as int) =~= b@);
    true
}

// ---- Statistics ----

/// Statistic counters: a varint count, then that many (name, value) pairs.
#[derive(Clone, Debug)]
pub struct Statistics {
    pub values: Vec<(String, i32)>,
}

impl View for Statistics {
    type V = Seq<(Seq<char>, i32)>;

    open spec fn view(&self) -> Seq<(Seq<char>, i32)> {
        stats_view(self.values@)
    }
}

/// The fields of the packet at the front of `s`, and what follows them.
pub open spec fn parse_statistics(s: Seq<u8>) -> Option<(Seq<(Seq<char>, i32)>, Seq<u8>)> {
    match parse_varint(s) {
        Some((n, r)) => if n >= 0 {
            parse_stats(r, n as nat)
        } else {
            None
        },
        None => None,
    }
}

/// The wire form of the packet's fields.
pub open spec fn statistics_bytes(v: Seq<(Seq<char>, i32)>) -> Seq<u8> {
    varint_bytes(v.len() as i32) + stats_bytes(v)
}

/// Whether the packet can be written: its fields agree and fit.
pub open spec fn statistics_fits(v: Seq<(Seq<char>, i32)>) -> bool {
    v.len() <= i32::MAX && stats_fits(v)
}

impl Statistics {
    /// Read the fields of a `Statistics` packet.
    pub fn deserialize(rd: &mut Reader) -> (r: Result<Statistics, ProtoError>)
        ensures
            reads_as_view(r, parse_statistics(old(rd).rest()), final(rd).rest()),
    {
        let n = read_varint(rd)?;
        if n < 0 {
            return Err(ProtoError::Malformed);
        }
        let values = read_stats(rd, n)?;
        Ok(Statistics { values })
    }

    /// Write the fields of this packet.
    pub fn write(&self, w: &mut Vec<u8>) -> (r: Result<(), ProtoError>)
        ensures
            r is Ok <==> statistics_fits(self@),
            r is Ok ==> final(w)@ == old(w)@ + statistics_bytes(self@),
            r is Err ==> r.unwrap_err() is InvalidOutbound,
    {
        if self.values.len() > i32::MAX as usize {
            return Err(ProtoError::InvalidOutbound { reason: reason("too many statistics") });
        }
        write_varint(&(self.values.len() as i32), w)?;
        write_stats(&self.values, w)?;
        assert(w@ =~= old(w)@ + statistics_bytes(self@));
        Ok(())
    }
}

// ---- ClientboundTabComplete ----


/// One list element at the front of `s`, and what follows it.
pub open spec fn parse_tab_match(s: Seq<u8>) -> Option<((Seq<char>, Option<Seq<char>>), Seq<u8>)> {
    match parse_string(s) {
        Some((a, s1)) => match parse_bool(s1) {
            Some((b, s2)) => if b {
                match parse_string(s2) {
                    Some((t, s3)) => Some(((a, Some(t)), s3)),
                    None => None,
                }
            } else {
                Some(((a, None), s2))
            },
            None => None,
        },
        None => None,
    }
}

/// The wire form of one list element.
pub open spec fn tab_match_bytes(v: (Seq<char>, Option<Seq<char>>)) -> Seq<u8> {
    string_bytes(v.0) + match v.1 {
        Some(t) => bool_bytes(true) + string_bytes(t),
        None => bool_bytes(false),
    }
}

/// Whether one list element can be written.
pub open spec fn tab_match_fits(v: (Seq<char>, Option<Seq<char>>)) -> bool {
    str_fits(v.0) && (v.1 is Some ==> str_fits(v.1.unwrap()))
}

/// Read one list element.
fn read_tab_match(rd: &mut Reader) -> (r: Result<(String, Option<String>), ProtoError>)
    ensures
        match r {
            Ok(x) => parse_tab_match(old(rd).rest()) == Some(((x.0@, opt_str(x.1)), final(rd).rest())),
            Err(e) => parse_tab_match(old(rd).rest()) is None && e is Malformed,
        },
{
    let a = read_String(rd)?;
    let b = read_bool(rd)?;
    if b {
        let t = read_String(rd)?;
        Ok((a, Some(t)))
    } else {
        Ok((a, None))
    }
}

/// Write one list element.
fn write_tab_match(x: &(String, Option<String>), w: &mut Vec<u8>) -> (r: Result<(), ProtoError>)
    ensures
        r is Ok <==> tab_match_fits((x.0@, opt_str(x.1))),
        r is Ok ==> final(w)@ == old(w)@ + tab_match_bytes((x.0@, opt_str(x.1))),
        r is Err ==> r.unwrap_err() is InvalidOutbound,
{
    write_String(x.0.as_str(), w)?;
    match &x.1 {
        Some(t) => {
            write_bool(&true, w)?;
            write_String(t.as_str(), w)?;
        },
        None => {
            write_bool(&false, w)?;
        },
    }
    assert(w@ =~= old(w)@ + tab_match_bytes((x.0@, opt_str(x.1))));
    Ok(())
}

/// The server's answer to a tab-completion request.
#[derive(Clone, Debug)]
pub struct ClientboundTabComplete {
    pub transaction_id: i32,
    pub start: i32,
    pub length: i32,
    pub matches: Vec<(String, Option<String>)>,
}

impl View for ClientboundTabComplete {
    type V = (i32, i32, i32, Seq<(Seq<char>, Option<Seq<char>>)>);

    open spec fn view(&self) -> Self::V {
        (self.transaction_id, self.start, self.length, tab_matchs_view(self.matches@))
    }
}

/// The fields of the packet at the front of `s`, and what follows them.
pub open spec fn parse_clientbound_tab_complete(s: Seq<u8>) -> Option<((i32, i32, i32, Seq<(Seq<char>, Option<Seq<char>>)>), Seq<u8>)> {
    match parse_varint(s) {
        Some((a, s1)) => match parse_varint(s1) {
            Some((b, s2)) => match parse_varint(s2) {
                Some((c, s3)) => match parse_varint(s3) {
                    Some((n, s4)) => if n >= 0 {
                        match parse_tab_matchs(s4, n as nat) {
                            Some((m, s5)) => Some(((a, b, c, m), s5)),
                            None => None,
                        }
                    } else {
                        None
                    },
                    None => None,
                },
                None => None,
            },
            None => None,
        },
        None => None,
    }
}

/// The wire form of the packet's fields.
pub open spec fn clientbound_tab_complete_bytes(v: (i32, i32, i32, Seq<(Seq<char>, Option<Seq<char>>)>)) -> Seq<u8> {
    varint_bytes(v.0) + varint_bytes(v.1) + varint_bytes(v.2) + varint_bytes(v.3.len() as i32)
        + tab_matchs_bytes(v.3)
}

/// Whether the packet can be written: its fields agree and fit.
pub open spec fn clientbound_tab_complete_fits(v: (i32, i32, i32, Seq<(Seq<char>, Option<Seq<char>>)>)) -> bool {
    v.3.len() <= i32::MAX && tab_matchs_fits(v.3)
}

impl ClientboundTabComplete {
    /// Read the fields of a `ClientboundTabComplete` packet.
    pub fn deserialize(rd: &mut Reader) -> (r: Result<ClientboundTabComplete, ProtoError>)
        ensures
            reads_as_view(r, parse_clientbound_tab_complete(old(rd).rest()), final(rd).rest()),
    {
        let transaction_id = read_varint(rd)?;
        let start = read_varint(rd)?;
        let length = read_varint(rd)?;
        let n = read_varint(rd)?;
        if n < 0 {
            return Err(ProtoError::Malformed);
        }
        let matches = read_tab_matchs(rd, n)?;
        Ok(ClientboundTabComplete { transaction_id, start, length, matches })
    }

    /// Write the fields of this packet.
    pub fn write(&self, w: &mut Vec<u8>) -> (r: Result<(), ProtoError>)
        ensures
            r is Ok <==> clientbound_tab_complete_fits(self@),
            r is Ok ==> final(w)@ == old(w)@ + clientbound_tab_complete_bytes(self@),
            r is Err ==> r.unwrap_err() is InvalidOutbound,
    {
        if self.matches.len() > i32::MAX as usize {
            return Err(ProtoError::InvalidOutbound { reason: reason("too many matches") });
        }
        write_varint(&self.transaction_id, w)?;
        write_varint(&self.start, w)?;
        write_varint(&self.length, w)?;
        write_varint(&(self.matches.len() as i32), w)?;
        write_tab_matchs(&self.matches, w)?;
        assert(w@ =~= old(w)@ + clientbound_tab_complete_bytes(self@));
        Ok(())
    }
}

// ---- MultiBlockChange ----

/// One list element at the front of `s`, and what follows it.
pub open spec fn parse_block_change(s: Seq<u8>) -> Option<((u8, u8, u8, i32), Seq<u8>)> {
    match parse_u8(s) {
        Some((xz, s1)) => match parse_u8(s1) {
            Some((y, s2)) => match parse_varint(s2) {
                Some((b, s3)) => Some((((xz / 16) as u8, y, (xz % 16) as u8, b), s3)),
                None => None,
            },
            None => None,
        },
        None => None,
    }
}

/// The wire form of one list element.
pub open spec fn block_change_bytes(v: (u8, u8, u8, i32)) -> Seq<u8> {
    seq![(v.0 * 16 + v.2) as u8, v.1] + varint_bytes(v.3)
}

/// Whether one list element can be written.
pub open spec fn block_change_fits(v: (u8, u8, u8, i32)) -> bool {
    v.0 < 16 && v.2 < 16
}

/// Read one list element.
fn read_block_change(rd: &mut Reader) -> (r: Result<(u8, u8, u8, i32), ProtoError>)
    ensures
        match r {
            Ok(x) => parse_block_change(old(rd).rest()) == Some((x, final(rd).rest())),
            Err(e) => parse_block_change(old(rd).rest()) is None && e is Malformed,
        },
{
    let xz = read_u8(rd)?;
    let y = read_u8(rd)?;
    let b = read_varint(rd)?;
    Ok((xz / 16, y, xz % 16, b))
}

/// Write one list element.
fn write_block_change(x: &(u8, u8, u8, i32), w: &mut Vec<u8>) -> (r: Result<(), ProtoError>)
    ensures
        r is Ok <==> block_change_fits(*x),
        r is Ok ==> final(w)@ == old(w)@ + block_change_bytes(*x),
        r is Err ==> r.unwrap_err() is InvalidOutbound,
{
    if x.0 >= 16 || x.2 >= 16 {
        return Err(ProtoError::InvalidOutbound { reason: reason("block offset out of range") });
    }
    w.push(x.0 * 16 + x.2);
    w.push(x.1);
    write_varint(&x.3, w)?;
    assert(w@ =~= old(w)@ + block_change_bytes(*x));
    Ok(())
}

/// Several block changes within one chunk section.
#[derive(Clone, Debug)]
pub struct MultiBlockChange {
    pub chunk_x: i32,
    pub chunk_z: i32,
    /// (x, y, z, new block state), x and z relative to the chunk.
    pub changes: Vec<(u8, u8, u8, i32)>,
}

impl View for MultiBlockChange {
    type V = (i32, i32, Seq<(u8, u8, u8, i32)>);

    open spec fn view(&self) -> Self::V {
        (self.chunk_x, self.chunk_z, block_changes_view(self.changes@))
    }
}

/// The fields of the packet at the front of `s`, and what follows them.
pub open spec fn parse_multi_block_change(s: Seq<u8>) -> Option<((i32, i32, Seq<(u8, u8, u8, i32)>), Seq<u8>)> {
    match parse_i32(s) {
        Some((a, s1)) => match parse_i32(s1) {
            Some((b, s2)) => match parse_varint(s2) {
                Some((n, s3)) => if n >= 0 {
                    match parse_block_changes(s3, n as nat) {
                        Some((c, s4)) => Some(((a, b, c), s4)),
                        None => None,
                    }
                } else {
                    None
                },
                None => None,
            },
            None => None,
        },
        None => None,
    }
}

/// The wire form of the packet's fields.
pub open spec fn multi_block_change_bytes(v: (i32, i32, Seq<(u8, u8, u8, i32)>)) -> Seq<u8> {
    be_bytes(unsigned_of(v.0 as int, 0x1_0000_0000), 4) + be_bytes(unsigned_of(v.1 as int, 0x1_0000_0000), 4)
        + varint_bytes(v.2.len() as i32) + block_changes_bytes(v.2)
}

/// Whether the packet can be written: its fields agree and fit.
pub open spec fn multi_block_change_fits(v: (i32, i32, Seq<(u8, u8, u8, i32)>)) -> bool {
    v.2.len() <= i32::MAX && block_changes_fits(v.2)
}

impl MultiBlockChange {
    /// Read the fields of a `MultiBlockChange` packet.
    pub fn deserialize(rd: &mut Reader) -> (r: Result<MultiBlockChange, ProtoError>)
        ensures
            reads_as_view(r, parse_multi_block_change(old(rd).rest()), final(rd).rest()),
    {
        let chunk_x = read_i32(rd)?;
        let chunk_z = read_i32(rd)?;
        let n = read_varint(rd)?;
        if n < 0 {
            return Err(ProtoError::Malformed);
        }
        let changes = read_block_changes(rd, n)?;
        Ok(MultiBlockChange { chunk_x, chunk_z, changes })
    }

    /// Write the fields of this packet; x and z of each change must be below 16.
    pub fn write(&self, w: &mut Vec<u8>) -> (r: Result<(), ProtoError>)
        ensures
            r is Ok <==> multi_block_change_fits(self@),
            r is Ok ==> final(w)@ == old(w)@ + multi_block_change_bytes(self@),
            r is Err ==> r.unwrap_err() is InvalidOutbound,
    {
        if self.changes.len() > i32::MAX as usize {
            return Err(ProtoError::InvalidOutbound { reason: reason("too many changes") });
        }
        write_i32(&self.chunk_x, w)?;
        write_i32(&self.chunk_z, w)?;
        write_varint(&(self.changes.len() as i32), w)?;
        write_block_changes(&self.changes, w)?;
        assert(w@ =~= old(w)@ + multi_block_change_bytes(self@));
        Ok(())
    }
}

// ---- OpenWindow ----

/// The window type whose packet carries an entity id.
pub const ENTITY_HORSE: &'static str = "EntityHorse";

/// A window opened by the server.
#[derive(Clone, Debug)]
pub struct OpenWindow {
    pub window_id: u8,
    pub window_type: String,
    pub window_title: String,
    pub number_of_slots: u8,
    /// Present exactly when the window type is "EntityHorse".
    pub entity_id: Option<i32>,
}

impl View for OpenWindow {
    type V = (u8, Seq<char>, Seq<char>, u8, Option<i32>);

    open spec fn view(&self) -> Self::V {
        (self.window_id, self.window_type@, self.window_title@, self.number_of_slots, self.entity_id)
    }
}

/// The fields of the packet at the front of `s`, and what follows them.
pub open spec fn parse_open_window(s: Seq<u8>) -> Option<((u8, Seq<char>, Seq<char>, u8, Option<i32>), Seq<u8>)> {
    match parse_u8(s) {
        Some((a, s1)) => match parse_string(s1) {
            Some((t, s2)) => match parse_string(s2) {
                Some((title, s3)) => match parse_u8(s3) {
                    Some((n, s4)) => if t == ENTITY_HORSE@ {
                        match parse_i32(s4) {
                            Some((e, s5)) => Some(((a, t, title, n, Some(e)), s5)),
                            None => None,
                        }
                    } else {
                        Some(((a, t, title, n, None), s4))
                    },
                    None => None,
                },
                None => None,
            },
            None => None,
        },
        None => None,
    }
}

/// The wire form of the packet's fields.
pub open spec fn open_window_bytes(v: (u8, Seq<char>, Seq<char>, u8, Option<i32>)) -> Seq<u8> {
    seq![v.0] + string_bytes(v.1) + string_bytes(v.2) + seq![v.3] + match v.4 {
        Some(e) => be_bytes(unsigned_of(e as int, 0x1_0000_0000), 4),
        None => seq![],
    }
}

/// Whether the packet can be written: its fields agree and fit.
pub open spec fn open_window_fits(v: (u8, Seq<char>, Seq<char>, u8, Option<i32>)) -> bool {
    str_fits(v.1) && str_fits(v.2) && (v.4 is Some <==> v.1 == ENTITY_HORSE@)
}

impl OpenWindow {
    /// Read the fields of an `OpenWindow` packet.
    pub fn deserialize(rd: &mut Reader) -> (r: Result<OpenWindow, ProtoError>)
        ensures
            reads_as_view(r, parse_open_window(old(rd).rest()), final(rd).rest()),
    {
        let window_id = read_u8(rd)?;
        let window_type = read_String(rd)?;
        let window_title = read_String(rd)?;
        let number_of_slots = read_u8(rd)?;
        let entity_id = if str_eq(window_type.as_str(), ENTITY_HORSE) {
            Some(read_i32(rd)?)
        } else {
            None
        };
        Ok(OpenWindow { window_id, window_type, window_title, number_of_slots, entity_id })
    }

    /// Write the fields of this packet; the entity id must be present exactly
    /// for "EntityHorse".
    pub fn write(&self, w: &mut Vec<u8>) -> (r: Result<(), ProtoError>)
        ensures
            r is Ok <==> open_window_fits(self@),
            r is Ok ==> final(w)@ == old(w)@ + open_window_bytes(self@),
            r is Err ==> r.unwrap_err() is InvalidOutbound,
    {
        if self.entity_id.is_some() != str_eq(self.window_type.as_str(), ENTITY_HORSE) {
            return Err(ProtoError::InvalidOutbound { reason: reason("entity id does not match window type") });
        }
        write_u8(&self.window_id, w)?;
        write_String(self.window_type.as_str(), w)?;
        write_String(self.window_title.as_str(), w)?;
        write_u8(&self.number_of_slots, w)?;
        if let Some(e) = self.entity_id {
            write_i32(&e, w)?;
        }
        assert(w@ =~= old(w)@ + open_window_bytes(self@));
        Ok(())
    }
}

// ---- Explosion ----

/// An explosion; the coordinates, radius and motion are `f32` bit patterns.
#[derive(Clone, Debug)]
pub struct Explosion {
    pub x: u32,
    pub y: u32,
    pub z: u32,
    pub radius: u32,
    pub affected_blocks: Vec<(i8, i8, i8)>,
    pub motion_x: u32,
    pub motion_y: u32,
    pub motion_z: u32,
}

impl View for Explosion {
    type V = (u32, u32, u32, u32, Seq<(i8, i8, i8)>, u32, u32, u32);

    open spec fn view(&self) -> Self::V {
        (self.x, self.y, self.z, self.radius, block_offsets_view(self.affected_blocks@), self.motion_x, self.motion_y, self.motion_z)
    }
}

/// The fields of the packet at the front of `s`, and what follows them.
pub open spec fn parse_explosion(s: Seq<u8>) -> Option<((u32, u32, u32, u32, Seq<(i8, i8, i8)>, u32, u32, u32), Seq<u8>)> {
    match parse_u32(s) {
        Some((x, s1)) => match parse_u32(s1) {
            Some((y, s2)) => match parse_u32(s2) {
                Some((z, s3)) => match parse_u32(s3) {
                    Some((rad, s4)) => match parse_i32(s4) {
                        Some((n, s5)) => if n >= 0 {
                            match parse_block_offsets(s5, n as nat) {
                                Some((bl, s6)) => match parse_u32(s6) {
                                    Some((mx, s7)) => match parse_u32(s7) {
                                        Some((my, s8)) => match parse_u32(s8) {
                                            Some((mz, s9)) => Some(((x, y, z, rad, bl, mx, my, mz), s9)),
                                            None => None,
                                        },
                                        None => None,
                                    },
                                    None => None,
                                },
                                None => None,
                            }
                        } else {
                            None
                        },
                        None => None,
                    },
                    None => None,
                },
                None => None,
            },
            None => None,
        },
        None => None,
    }
}

/// The wire form of the packet's fields.
pub open spec fn explosion_bytes(v: (u32, u32, u32, u32, Seq<(i8, i8, i8)>, u32, u32, u32)) -> Seq<u8> {
    be_bytes(v.0 as nat, 4) + be_bytes(v.1 as nat, 4) + be_bytes(v.2 as nat, 4) + be_bytes(v.3 as nat, 4)
        + be_bytes(unsigned_of(v.4.len() as int, 0x1_0000_0000), 4) + block_offsets_bytes(v.4)
        + be_bytes(v.5 as nat, 4) + be_bytes(v.6 as nat, 4) + be_bytes(v.7 as nat, 4)
}

/// Whether the packet can be written: its fields agree and fit.
pub open spec fn explosion_fits(v: (u32, u32, u32, u32, Seq<(i8, i8, i8)>, u32, u32, u32)) -> bool {
    v.4.len() <= i32::MAX
}

impl Explosion {
    /// Read the fields of an `Explosion` packet.
    #[verifier::rlimit(60)]
    pub fn deserialize(rd: &mut Reader) -> (r: Result<Explosion, ProtoError>)
        ensures
            reads_as_view(r, parse_explosion(old(rd).rest()), final(rd).rest()),
    {
        let x = read_u32(rd)?;
        let y = read_u32(rd)?;
        let z = read_u32(rd)?;
        let radius = read_u32(rd)?;
        let n = read_i32(rd)?;
        if n < 0 {
            return Err(ProtoError::Malformed);
        }
        let affected_blocks = read_block_offsets(rd, n)?;
        let motion_x = read_u32(rd)?;
        let motion_y = read_u32(rd)?;
        let motion_z = read_u32(rd)?;
        Ok(Explosion { x, y, z, radius, affected_blocks, motion_x, motion_y, motion_z })
    }

    /// Write the fields of this packet.
    #[verifier::rlimit(60)]
    pub fn write(&self, w: &mut Vec<u8>) -> (r: Result<(), ProtoError>)
        ensures
            r is Ok <==> explosion_fits(self@),
            r is Ok ==> final(w)@ == old(w)@ + explosion_bytes(self@),
            r is Err ==> r.unwrap_err() is InvalidOutbound,
    {
        if self.affected_blocks.len() > i32::MAX as usize {
            return Err(ProtoError::InvalidOutbound { reason: reason("too many blocks") });
        }
        write_u32(&self.x, w)?;
        write_u32(&self.y, w)?;
        write_u32(&self.z, w)?;
        write_u32(&self.radius, w)?;
        write_i32(&(self.affected_blocks.len() as i32), w)?;
        let r = write_block_offsets(&self.affected_blocks, w);
        assert(block_offsets_fits(block_offsets_view(self.affected_blocks@)));
        r?;
        write_u32(&self.motion_x, w)?;
        write_u32(&self.motion_y, w)?;
        write_u32(&self.motion_z, w)?;
        assert(w@ =~= old(w)@ + explosion_bytes(self@));
        Ok(())
    }
}

// ---- CombatEvent ----

/// A combat event: 0 enter combat, 1 end combat (duration, entity), 2 entity
/// dead (player, entity, message).
#[derive(Clone, Debug)]
pub struct CombatEvent {
    pub event: i32,
    pub duration_playerid: Option<i32>,
    pub entity_id: Option<i32>,
    pub message: Option<String>,
}

impl View for CombatEvent {
    type V = (i32, Option<i32>, Option<i32>, Option<Seq<char>>);

    open spec fn view(&self) -> Self::V {
        (self.event, self.duration_playerid, self.entity_id, opt_str(self.message))
    }
}

/// The fields of the packet at the front of `s`, and what follows them.
pub open spec fn parse_combat_event(s: Seq<u8>) -> Option<((i32, Option<i32>, Option<i32>, Option<Seq<char>>), Seq<u8>)> {
    match parse_varint(s) {
        Some((e, s1)) => if e == 0 {
            Some(((e, None, None, None), s1))
        } else if e == 1 || e == 2 {
            match parse_varint(s1) {
                Some((d, s2)) => match parse_i32(s2) {
                    Some((id, s3)) => if e == 1 {
                        Some(((e, Some(d), Some(id), None), s3))
                    } else {
                        match parse_string(s3) {
                            Some((m, s4)) => Some(((e, Some(d), Some(id), Some(m)), s4)),
                            None => None,
                        }
                    },
                    None => None,
                },
                None => None,
            }
        } else {
            None
        },
        None => None,
    }
}

/// The wire form of the packet's fields.
pub open spec fn combat_event_bytes(v: (i32, Option<i32>, Option<i32>, Option<Seq<char>>)) -> Seq<u8> {
    varint_bytes(v.0) + match v.1 {
        Some(d) => varint_bytes(d),
        None => seq![],
    } + match v.2 {
        Some(id) => be_bytes(unsigned_of(id as int, 0x1_0000_0000), 4),
        None => seq![],
    } + match v.3 {
        Some(m) => string_bytes(m),
        None => seq![],
    }
}

/// Whether the packet can be written: its fields agree and fit.
pub open spec fn combat_event_fits(v: (i32, Option<i32>, Option<i32>, Option<Seq<char>>)) -> bool {
    &&& v.0 == 0 ==> v.1 is None && v.2 is None && v.3 is None
    &&& v.0 == 1 ==> v.1 is Some && v.2 is Some && v.3 is None
    &&& v.0 == 2 ==> v.1 is Some && v.2 is Some && v.3 is Some && str_fits(v.3.unwrap())
    &&& 0 <= v.0 <= 2
}

impl CombatEvent {
    /// Read the fields of a `CombatEvent` packet.
    pub fn deserialize(rd: &mut Reader) -> (r: Result<CombatEvent, ProtoError>)
        ensures
            reads_as_view(r, parse_combat_event(old(rd).rest()), final(rd).rest()),
    {
        let event = read_varint(rd)?;
        if event == 0 {
            return Ok(CombatEvent { event, duration_playerid: None, entity_id: None, message: None });
        }
        if event != 1 && event != 2 {
            return Err(ProtoError::Malformed);
        }
        let d = read_varint(rd)?;
        let id = read_i32(rd)?;
        if event == 1 {
            Ok(CombatEvent { event, duration_playerid: Some(d), entity_id: Some(id), message: None })
        } else {
            let m = read_String(rd)?;
            Ok(CombatEvent { event, duration_playerid: Some(d), entity_id: Some(id), message: Some(m) })
        }
    }

    /// Write the fields of this packet; the optional fields must match the
    /// event.
    pub fn write(&self, w: &mut Vec<u8>) -> (r: Result<(), ProtoError>)
        ensures
            r is Ok <==> combat_event_fits(self@),
            r is Ok ==> final(w)@ == old(w)@ + combat_event_bytes(self@),
            r is Err ==> r.unwrap_err() is InvalidOutbound,
    {
        let ok = match self.event {
            0 => self.duration_playerid.is_none() && self.entity_id.is_none() && self.message.is_none(),
            1 => self.duration_playerid.is_some() && self.entity_id.is_some() && self.message.is_none(),
            2 => self.duration_playerid.is_some() && self.entity_id.is_some() && self.message.is_some(),
            _ => false,
        };
        if !ok {
            return Err(ProtoError::InvalidOutbound { reason: reason("combat event fields do not match the event") });
        }
        write_varint(&self.event, w)?;
        if let Some(d) = self.duration_playerid {
            write_varint(&d, w)?;
        }
        if let Some(id) = self.entity_id {
            write_i32(&id, w)?;
        }
        if let Some(m) = &self.message {
            write_String(m.as_str(), w)?;
        }
        assert(w@ =~= old(w)@ + combat_event_bytes(self@));
        Ok(())
    }
}

// ---- ScoreboardObjective ----

/// Create (mode 0), remove (1) or update (2) a scoreboard objective; modes 0
/// and 2 carry a value and a type.
#[derive(Clone, Debug)]
pub struct ScoreboardObjective {
    pub name: String,
    pub mode: u8,
    pub value: Option<String>,
    pub objective_type: Option<String>,
}

impl View for ScoreboardObjective {
    type V = (Seq<char>, u8, Option<Seq<char>>, Option<Seq<char>>);

    open spec fn view(&self) -> Self::V {
        (self.name@, self.mode, opt_str(self.value), opt_str(self.objective_type))
    }
}

/// The fields of the packet at the front of `s`, and what follows them.
pub open spec fn parse_scoreboard_objective(s: Seq<u8>) -> Option<((Seq<char>, u8, Option<Seq<char>>, Option<Seq<char>>), Seq<u8>)> {
    match parse_string(s) {
        Some((n, s1)) => match parse_u8(s1) {
            Some((m, s2)) => if m == 0 || m == 2 {
                match parse_string(s2) {
                    Some((v, s3)) => match parse_string(s3) {
                        Some((t, s4)) => Some(((n, m, Some(v), Some(t)), s4)),
                        None => None,
                    },
                    None => None,
                }
            } else {
                Some(((n, m, None, None), s2))
            },
            None => None,
        },
        None => None,
    }
}

/// The wire form of the packet's fields.
pub open spec fn scoreboard_objective_bytes(v: (Seq<char>, u8, Option<Seq<char>>, Option<Seq<char>>)) -> Seq<u8> {
    string_bytes(v.0) + seq![v.1] + match v.2 {
        Some(x) => string_bytes(x),
        None => seq![],
    } + match v.3 {
        Some(x) => string_bytes(x),
        None => seq![],
    }
}

/// Whether the packet can be written: its fields agree and fit.
pub open spec fn scoreboard_objective_fits(v: (Seq<char>, u8, Option<Seq<char>>, Option<Seq<char>>)) -> bool {
    &&& str_fits(v.0)
    &&& (v.1 == 0 || v.1 == 2) ==> v.2 is Some && v.3 is Some && str_fits(v.2.unwrap()) && str_fits(v.3.unwrap())
    &&& !(v.1 == 0 || v.1 == 2) ==> v.2 is None && v.3 is None
}

impl ScoreboardObjective {
    /// Read the fields of a `ScoreboardObjective` packet.
    pub fn deserialize(rd: &mut Reader) -> (r: Result<ScoreboardObjective, ProtoError>)
        ensures
            reads_as_view(r, parse_scoreboard_objective(old(rd).rest()), final(rd).rest()),
    {
        let name = read_String(rd)?;
        let mode = read_u8(rd)?;
        if mode == 0 || mode == 2 {
            let value = read_String(rd)?;
            let objective_type = read_String(rd)?;
            Ok(ScoreboardObjective { name, mode, value: Some(value), objective_type: Some(objective_type) })
        } else {
            Ok(ScoreboardObjective { name, mode, value: None, objective_type: None })
        }
    }

    /// Write the fields of this packet; value and type must be present exactly
    /// for modes 0 and 2.
    pub fn write(&self, w: &mut Vec<u8>) -> (r: Result<(), ProtoError>)
        ensures
            r is Ok <==> scoreboard_objective_fits(self@),
            r is Ok ==> final(w)@ == old(w)@ + scoreboard_objective_bytes(self@),
            r is Err ==> r.unwrap_err() is InvalidOutbound,
    {
        let with_value = self.mode == 0 || self.mode == 2;
        if self.value.is_some() != with_value || self.objective_type.is_some() != with_value {
            return Err(ProtoError::InvalidOutbound { reason: reason("objective fields do not match the mode") });
        }
        write_String(self.name.as_str(), w)?;
        write_u8(&self.mode, w)?;
        if let Some(v) = &self.value {
            write_String(v.as_str(), w)?;
        }
        if let Some(t) = &self.objective_type {
            write_String(t.as_str(), w)?;
        }
        assert(w@ =~= old(w)@ + scoreboard_objective_bytes(self@));
        Ok(())
    }
}

// ---- UpdateScore ----

/// Set (action 0) or remove (action 1) a score; only a set carries a value.
#[derive(Clone, Debug)]
pub struct UpdateScore {
    pub name: String,
    pub action: u8,
    pub objective_name: String,
    pub value: Option<i32>,
}

impl View for UpdateScore {
    type V = (Seq<char>, u8, Seq<char>, Option<i32>);

    open spec fn view(&self) -> Self::V {
        (self.name@, self.action, self.objective_name@, self.value)
    }
}

/// The fields of the packet at the front of `s`, and what follows them.
pub open spec fn parse_update_score(s: Seq<u8>) -> Option<((Seq<char>, u8, Seq<char>, Option<i32>), Seq<u8>)> {
    match parse_string(s) {
        Some((n, s1)) => match parse_u8(s1) {
            Some((a, s2)) => match parse_string(s2) {
                Some((o, s3)) => if a == 1 {
                    Some(((n, a, o, None), s3))
                } else {
                    match parse_varint(s3) {
                        Some((v, s4)) => Some(((n, a, o, Some(v)), s4)),
                        None => None,
                    }
                },
                None => None,
            },
            None => None,
        },
        None => None,
    }
}

/// The wire form of the packet's fields.
pub open spec fn update_score_bytes(v: (Seq<char>, u8, Seq<char>, Option<i32>)) -> Seq<u8> {
    string_bytes(v.0) + seq![v.1] + string_bytes(v.2) + match v.3 {
        Some(x) => varint_bytes(x),
        None => seq![],
    }
}

/// Whether the packet can be written: its fields agree and fit.
pub open spec fn update_score_fits(v: (Seq<char>, u8, Seq<char>, Option<i32>)) -> bool {
    str_fits(v.0) && str_fits(v.2) && (v.3 is None <==> v.1 == 1)
}

impl UpdateScore {
    /// Read the fields of an `UpdateScore` packet.
    pub fn deserialize(rd: &mut Reader) -> (r: Result<UpdateScore, ProtoError>)
        ensures
            reads_as_view(r, parse_update_score(old(rd).rest()), final(rd).rest()),
    {
        let name = read_String(rd)?;
        let action = read_u8(rd)?;
        let objective_name = read_String(rd)?;
        let value = if action == 1 {
            None
        } else {
            Some(read_varint(rd)?)
        };
        Ok(UpdateScore { name, action, objective_name, value })
    }

    /// Write the fields of this packet; the value must be absent exactly for
    /// action 1.
    pub fn write(&self, w: &mut Vec<u8>) -> (r: Result<(), ProtoError>)
        ensures
            r is Ok <==> update_score_fits(self@),
            r is Ok ==> final(w)@ == old(w)@ + update_score_bytes(self@),
            r is Err ==> r.unwrap_err() is InvalidOutbound,
    {
        if self.value.is_none() != (self.action == 1) {
            return Err(ProtoError::InvalidOutbound { reason: reason("score value does not match the action") });
        }
        write_String(self.name.as_str(), w)?;
        write_u8(&self.action, w)?;
        write_String(self.objective_name.as_str(), w)?;
        if let Some(v) = self.value {
            write_varint(&v, w)?;
        }
        assert(w@ =~= old(w)@ + update_score_bytes(self@));
        Ok(())
    }
}

// ---- Title ----

/// A title command: actions 0 to 2 carry a text, action 3 the three times,
/// the others nothing.
#[derive(Clone, Debug)]
pub struct Title {
    pub action: i32,
    pub text: Option<String>,
    pub times: Option<(i32, i32, i32)>,
}

impl View for Title {
    type V = (i32, Option<Seq<char>>, Option<(i32, i32, i32)>);

    open spec fn view(&self) -> Self::V {
        (self.action, opt_str(self.text), self.times)
    }
}

/// The fields of the packet at the front of `s`, and what follows them.
pub open spec fn parse_title(s: Seq<u8>) -> Option<((i32, Option<Seq<char>>, Option<(i32, i32, i32)>), Seq<u8>)> {
    match parse_varint(s) {
        Some((a, s1)) => if 0 <= a <= 2 {
            match parse_string(s1) {
                Some((t, s2)) => Some(((a, Some(t), None), s2)),
                None => None,
            }
        } else if a == 3 {
            match parse_i32(s1) {
                Some((x, s2)) => match parse_i32(s2) {
                    Some((y, s3)) => match parse_i32(s3) {
                        Some((z, s4)) => Some(((a, None, Some((x, y, z))), s4)),
                        None => None,
                    },
                    None => None,
                },
                None => None,
            }
        } else {
            Some(((a, None, None), s1))
        },
        None => None,
    }
}

/// The wire form of the packet's fields.
pub open spec fn title_bytes(v: (i32, Option<Seq<char>>, Option<(i32, i32, i32)>)) -> Seq<u8> {
    varint_bytes(v.0) + match v.1 {
        Some(t) => string_bytes(t),
        None => seq![],
    } + match v.2 {
        Some(t) => be_bytes(unsigned_of(t.0 as int, 0x1_0000_0000), 4) + be_bytes(unsigned_of(t.1 as int, 0x1_0000_0000), 4)
            + be_bytes(unsigned_of(t.2 as int, 0x1_0000_0000), 4),
        None => seq![],
    }
}

/// Whether the packet can be written: its fields agree and fit.
pub open spec fn title_fits(v: (i32, Option<Seq<char>>, Option<(i32, i32, i32)>)) -> bool {
    &&& (v.1 is Some <==> 0 <= v.0 <= 2)
    &&& (v.2 is Some <==> v.0 == 3)
    &&& v.1 is Some ==> str_fits(v.1.unwrap())
}

impl Title {
    /// Read the fields of a `Title` packet.
    pub fn deserialize(rd: &mut Reader) -> (r: Result<Title, ProtoError>)
        ensures
            reads_as_view(r, parse_title(old(rd).rest()), final(rd).rest()),
    {
        let action = read_varint(rd)?;
        if 0 <= action && action <= 2 {
            let t = read_String(rd)?;
            Ok(Title { action, text: Some(t), times: None })
        } else if action == 3 {
            let x = read_i32(rd)?;
            let y = read_i32(rd)?;
            let z = read_i32(rd)?;
            Ok(Title { action, text: None, times: Some((x, y, z)) })
        } else {
            Ok(Title { action, text: None, times: None })
        }
    }

    /// Write the fields of this packet; text and times must match the action.
    pub fn write(&self, w: &mut Vec<u8>) -> (r: Result<(), ProtoError>)
        ensures
            r is Ok <==> title_fits(self@),
            r is Ok ==> final(w)@ == old(w)@ + title_bytes(self@),
            r is Err ==> r.unwrap_err() is InvalidOutbound,
    {
        if self.text.is_some() != (0 <= self.action && self.action <= 2) || self.times.is_some() != (
        self.action == 3) {
            return Err(ProtoError::InvalidOutbound { reason: reason("title fields do not match the action") });
        }
        write_varint(&self.action, w)?;
        if let Some(t) = &self.text {
            write_String(t.as_str(), w)?;
        }
        if let Some((x, y, z)) = self.times {
            write_i32(&x, w)?;
            write_i32(&y, w)?;
            write_i32(&z, w)?;
        }
        assert(w@ =~= old(w)@ + title_bytes(self@));
        Ok(())
    }
}

/// `k` tab-completion matches, one after the other.
pub open spec fn parse_tab_matchs(s: Seq<u8>, k: nat) -> Option<(Seq<(Seq<char>, Option<Seq<char>>)>, Seq<u8>)>
    decreases k,
{
    if k == 0 {
        Some((seq![], s))
    } else {
        match parse_tab_matchs(s, (k - 1) as nat) {
            Some((vs, r)) => match parse_tab_match(r) {
                Some((v, r2)) => Some((vs.push(v), r2)),
                None => None,
            },
            None => None,
        }
    }
}

/// The wire form of a list, without its count.
pub open spec fn tab_matchs_bytes(vs: Seq<(Seq<char>, Option<Seq<char>>)>) -> Seq<u8>
    decreases vs.len(),
{
    if vs.len() == 0 {
        seq![]
    } else {
        tab_matchs_bytes(vs.drop_last()) + tab_match_bytes(vs.last())
    }
}

/// Whether every element of a list can be written.
pub open spec fn tab_matchs_fits(vs: Seq<(Seq<char>, Option<Seq<char>>)>) -> bool {
    forall|i: int| 0 <= i < vs.len() ==> tab_match_fits(#[trigger] vs[i])
}

/// Whether every element of a list can be read back.
pub open spec fn tab_matchs_readable(vs: Seq<(Seq<char>, Option<Seq<char>>)>) -> bool {
    forall|i: int| 0 <= i < vs.len() ==> tab_match_readable(#[trigger] vs[i])
}

/// Reading back what was written for a list gives the list.
pub proof fn lemma_tab_matchs_round_trip(vs: Seq<(Seq<char>, Option<Seq<char>>)>, rest: Seq<u8>)
    requires
        tab_matchs_fits(vs),
        tab_matchs_readable(vs),
    ensures
        parse_tab_matchs(tab_matchs_bytes(vs) + rest, vs.len()) == Some((vs, rest)),
    decreases vs.len(),
{
    if vs.len() == 0 {
        assert(tab_matchs_bytes(vs) + rest =~= rest);
        assert(vs =~= Seq::<(Seq<char>, Option<Seq<char>>)>::empty());
    } else {
        let init = vs.drop_last();
        let last = vs.last();
        assert forall|i: int| 0 <= i < init.len() implies tab_match_fits(#[trigger] init[i]) && tab_match_readable(init[i]) by {
            assert(init[i] == vs[i]);
        }
        assert(tab_match_fits(vs[vs.len() - 1]) && tab_match_readable(vs[vs.len() - 1]));
        let t = tab_match_bytes(last) + rest;
        lemma_tab_matchs_round_trip(init, t);
        lemma_tab_match_round_trip(last, rest);
        assert(tab_matchs_bytes(vs) + rest =~= tab_matchs_bytes(init) + t);
        assert(init.push(last) =~= vs);
        assert(init.len() == (vs.len() - 1) as nat);
    }
}

/// What a list of elements looks like as a view.
pub open spec fn tab_matchs_view(v: Seq<(String, Option<String>)>) -> Seq<(Seq<char>, Option<Seq<char>>)> {
    Seq::new(v.len(), |i: int| (v[i].0@, opt_str(v[i].1)))
}

proof fn lemma_tab_matchs_none(s: Seq<u8>, i: nat, k: nat)
    requires
        i <= k,
        parse_tab_matchs(s, i) is None,
    ensures
        parse_tab_matchs(s, k) is None,
    decreases k,
{
    if i < k {
        lemma_tab_matchs_none(s, i, (k - 1) as nat);
    }
}

/// Read `count` list elements.
fn read_tab_matchs(rd: &mut Reader, count: i32) -> (r: Result<Vec<(String, Option<String>)>, ProtoError>)
    requires
        count >= 0,
    ensures
        match r {
            Ok(v) => parse_tab_matchs(old(rd).rest(), count as nat) == Some((tab_matchs_view(v@), final(rd).rest())),
            Err(e) => parse_tab_matchs(old(rd).rest(), count as nat) is None && e is Malformed,
        },
{
    let start = Ghost(rd.rest());
    let mut out: Vec<(String, Option<String>)> = Vec::new();
    let mut i: i32 = 0;
    assert(tab_matchs_view(out@) =~= Seq::<(Seq<char>, Option<Seq<char>>)>::empty());
    while i < count
        invariant
            0 <= i <= count,
            start@ == old(rd).rest(),
            parse_tab_matchs(start@, i as nat) == Some((tab_matchs_view(out@), rd.rest())),
        decreases count - i,
    {
        let before = Ghost(rd.rest());
        match read_tab_match(rd) {
            Ok(x) => {
                let ghost prev = out@;
                out.push(x);
                assert(tab_matchs_view(out@) =~= tab_matchs_view(prev).push((x.0@, opt_str(x.1))));
            },
            Err(e) => {
                proof {
                    assert(parse_tab_matchs(start@, (i + 1) as nat) is None);
                    lemma_tab_matchs_none(start@, (i + 1) as nat, count as nat);
                }
                return Err(e);
            },
        }
        i = i + 1;
    }
    Ok(out)
}

/// Write the elements of a list, without its count.
fn write_tab_matchs(v: &Vec<(String, Option<String>)>, w: &mut Vec<u8>) -> (r: Result<(), ProtoError>)
    ensures
        r is Ok <==> tab_matchs_fits(tab_matchs_view(v@)),
        r is Ok ==> final(w)@ == old(w)@ + tab_matchs_bytes(tab_matchs_view(v@)),
        r is Err ==> r.unwrap_err() is InvalidOutbound,
{
    let mut i: usize = 0;
    assert(tab_matchs_view(v@).take(0) =~= Seq::<(Seq<char>, Option<Seq<char>>)>::empty());
    while i < v.len()
        invariant
            i <= v@.len(),
            w@ == old(w)@ + tab_matchs_bytes(tab_matchs_view(v@).take(i as int)),
            forall|j: int| 0 <= j < i ==> tab_match_fits(#[trigger] tab_matchs_view(v@)[j]),
        decreases v.len() - i,
    {
        let ghost before = w@;
        match write_tab_match(&v[i], w) {
            Ok(()) => {},
            Err(e) => {
                assert(!tab_match_fits(tab_matchs_view(v@)[i as int]));
                return Err(e);
            },
        }
        proof {
            let vs = tab_matchs_view(v@);
            assert(vs.take(i + 1).drop_last() =~= vs.take(i as int));
            assert(vs.take(i + 1).last() == vs[i as int]);
        }
        i = i + 1;
        assert(w@ =~= old(w)@ + tab_matchs_bytes(tab_matchs_view(v@).take(i as int)));
    }
    assert(tab_matchs_view(v@).take(v@.len() as int) =~= tab_matchs_view(v@));
    Ok(())
}

/// `k` block changes, one after the other.
pub open spec fn parse_block_changes(s: Seq<u8>, k: nat) -> Option<(Seq<(u8, u8, u8, i32)>, Seq<u8>)>
    decreases k,
{
    if k == 0 {
        Some((seq![], s))
    } else {
        match parse_block_changes(s, (k - 1) as nat) {
            Some((vs, r)) => match parse_block_change(r) {
                Some((v, r2)) => Some((vs.push(v), r2)),
                None => None,
            },
            None => None,
        }
    }
}

/// The wire form of a list, without its count.
pub open spec fn block_changes_bytes(vs: Seq<(u8, u8, u8, i32)>) -> Seq<u8>
    decreases vs.len(),
{
    if vs.len() == 0 {
        seq![]
    } else {
        block_changes_bytes(vs.drop_last()) + block_change_bytes(vs.last())
    }
}

/// Whether every element of a list can be written.
pub open spec fn block_changes_fits(vs: Seq<(u8, u8, u8, i32)>) -> bool {
    forall|i: int| 0 <= i < vs.len() ==> block_change_fits(#[trigger] vs[i])
}

/// Whether every element of a list can be read back.
pub open spec fn block_changes_readable(vs: Seq<(u8, u8, u8, i32)>) -> bool {
    forall|i: int| 0 <= i < vs.len() ==> block_change_readable(#[trigger] vs[i])
}

/// Reading back what was written for a list gives the list.
pub proof fn lemma_block_changes_round_trip(vs: Seq<(u8, u8, u8, i32)>, rest: Seq<u8>)
    requires
        block_changes_fits(vs),
        block_changes_readable(vs),
    ensures
        parse_block_changes(block_changes_bytes(vs) + rest, vs.len()) == Some((vs, rest)),
    decreases vs.len(),
{
    if vs.len() == 0 {
        assert(block_changes_bytes(vs) + rest =~= rest);
        assert(vs =~= Seq::<(u8, u8, u8, i32)>::empty());
    } else {
        let init = vs.drop_last();
        let last = vs.last();
        assert forall|i: int| 0 <= i < init.len() implies block_change_fits(#[trigger] init[i]) && block_change_readable(init[i]) by {
            assert(init[i] == vs[i]);
        }
        assert(block_change_fits(vs[vs.len() - 1]) && block_change_readable(vs[vs.len() - 1]));
        let t = block_change_bytes(last) + rest;
        lemma_block_changes_round_trip(init, t);
        lemma_block_change_round_trip(last, rest);
        assert(block_changes_bytes(vs) + rest =~= block_changes_bytes(init) + t);
        assert(init.push(last) =~= vs);
        assert(init.len() == (vs.len() - 1) as nat);
    }
}

/// What a list of elements looks like as a view.
pub open spec fn block_changes_view(v: Seq<(u8, u8, u8, i32)>) -> Seq<(u8, u8, u8, i32)> {
    Seq::new(v.len(), |i: int| v[i])
}

proof fn lemma_block_changes_none(s: Seq<u8>, i: nat, k: nat)
    requires
        i <= k,
        parse_block_changes(s, i) is None,
    ensures
        parse_block_changes(s, k) is None,
    decreases k,
{
    if i < k {
        lemma_block_changes_none(s, i, (k - 1) as nat);
    }
}

/// Read `count` list elements.
fn read_block_changes(rd: &mut Reader, count: i32) -> (r: Result<Vec<(u8, u8, u8, i32)>, ProtoError>)
    requires
        count >= 0,
    ensures
        match r {
            Ok(v) => parse_block_changes(old(rd).rest(), count as nat) == Some((block_changes_view(v@), final(rd).rest())),
            Err(e) => parse_block_changes(old(rd).rest(), count as nat) is None && e is Malformed,
        },
{
    let start = Ghost(rd.rest());
    let mut out: Vec<(u8, u8, u8, i32)> = Vec::new();
    let mut i: i32 = 0;
    assert(block_changes_view(out@) =~= Seq::<(u8, u8, u8, i32)>::empty());
    while i < count
        invariant
            0 <= i <= count,
            start@ == old(rd).rest(),
            parse_block_changes(start@, i as nat) == Some((block_changes_view(out@), rd.rest())),
        decreases count - i,
    {
        let before = Ghost(rd.rest());
        match read_block_change(rd) {
            Ok(x) => {
                let ghost prev = out@;
                out.push(x);
                assert(block_changes_view(out@) =~= block_changes_view(prev).push(x));
            },
            Err(e) => {
                proof {
                    assert(parse_block_changes(start@, (i + 1) as nat) is None);
                    lemma_block_changes_none(start@, (i + 1) as nat, count as nat);
                }
                return Err(e);
            },
        }
        i = i + 1;
    }
    Ok(out)
}

/// Write the elements of a list, without its count.
fn write_block_changes(v: &Vec<(u8, u8, u8, i32)>, w: &mut Vec<u8>) -> (r: Result<(), ProtoError>)
    ensures
        r is Ok <==> block_changes_fits(block_changes_view(v@)),
        r is Ok ==> final(w)@ == old(w)@ + block_changes_bytes(block_changes_view(v@)),
        r is Err ==> r.unwrap_err() is InvalidOutbound,
{
    let mut i: usize = 0;
    assert(block_changes_view(v@).take(0) =~= Seq::<(u8, u8, u8, i32)>::empty());
    while i < v.len()
        invariant
            i <= v@.len(),
            w@ == old(w)@ + block_changes_bytes(block_changes_view(v@).take(i as int)),
            forall|j: int| 0 <= j < i ==> block_change_fits(#[trigger] block_changes_view(v@)[j]),
        decreases v.len() - i,
    {
        let ghost before = w@;
        match write_block_change(&v[i], w) {
            Ok(()) => {},
            Err(e) => {
                assert(!block_change_fits(block_changes_view(v@)[i as int]));
                return Err(e);
            },
        }
        proof {
            let vs = block_changes_view(v@);
            assert(vs.take(i + 1).drop_last() =~= vs.take(i as int));
            assert(vs.take(i + 1).last() == vs[i as int]);
        }
        i = i + 1;
        assert(w@ =~= old(w)@ + block_changes_bytes(block_changes_view(v@).take(i as int)));
    }
    assert(block_changes_view(v@).take(v@.len() as int) =~= block_changes_view(v@));
    Ok(())
}


// ---- FacePlayer ----

/// Turn the player to face a point, or an entity; the coordinates are `f64`
/// bit patterns.
#[derive(Clone, Debug)]
pub struct FacePlayer {
    pub feet_or_eyes: i32,
    pub x: u64,
    pub y: u64,
    pub z: u64,
    pub entity_id: Option<i32>,
    pub entity_feet_or_eyes: Option<i32>,
}

impl View for FacePlayer {
    type V = (i32, u64, u64, u64, Option<i32>, Option<i32>);

    open spec fn view(&self) -> Self::V {
        (self.feet_or_eyes, self.x, self.y, self.z, self.entity_id, self.entity_feet_or_eyes)
    }
}

/// The fields of the packet at the front of `s`, and what follows them.
pub open spec fn parse_face_player(s: Seq<u8>) -> Option<((i32, u64, u64, u64, Option<i32>, Option<i32>), Seq<u8>)> {
    match parse_varint(s) {
        Some((f, s1)) => match parse_u64(s1) {
            Some((x, s2)) => match parse_u64(s2) {
                Some((y, s3)) => match parse_u64(s3) {
                    Some((z, s4)) => match parse_bool(s4) {
                        Some((b, s5)) => if b {
                            match parse_varint(s5) {
                                Some((e, s6)) => match parse_varint(s6) {
                                    Some((g, s7)) => Some(((f, x, y, z, Some(e), Some(g)), s7)),
                                    None => None,
                                },
                                None => None,
                            }
                        } else {
                            Some(((f, x, y, z, None, None), s5))
                        },
                        None => None,
                    },
                    None => None,
                },
                None => None,
            },
            None => None,
        },
        None => None,
    }
}

/// The wire form of the packet's fields.
pub open spec fn face_player_bytes(v: (i32, u64, u64, u64, Option<i32>, Option<i32>)) -> Seq<u8> {
    varint_bytes(v.0) + be_bytes(v.1 as nat, 8) + be_bytes(v.2 as nat, 8) + be_bytes(v.3 as nat, 8)
        + match (v.4, v.5) {
        (Some(e), Some(g)) => bool_bytes(true) + varint_bytes(e) + varint_bytes(g),
        _ => bool_bytes(false),
    }
}

/// Whether the packet can be written: its fields agree and fit.
pub open spec fn face_player_fits(v: (i32, u64, u64, u64, Option<i32>, Option<i32>)) -> bool {
    v.4 is Some <==> v.5 is Some
}

impl FacePlayer {
    /// Read the fields of a `FacePlayer` packet.
    pub fn deserialize(rd: &mut Reader) -> (r: Result<FacePlayer, ProtoError>)
        ensures
            reads_as_view(r, parse_face_player(old(rd).rest()), final(rd).rest()),
    {
        let feet_or_eyes = read_varint(rd)?;
        let x = read_u64(rd)?;
        let y = read_u64(rd)?;
        let z = read_u64(rd)?;
        let is_entity = read_bool(rd)?;
        if is_entity {
            let e = read_varint(rd)?;
            let g = read_varint(rd)?;
            Ok(FacePlayer { feet_or_eyes, x, y, z, entity_id: Some(e), entity_feet_or_eyes: Some(g) })
        } else {
            Ok(FacePlayer { feet_or_eyes, x, y, z, entity_id: None, entity_feet_or_eyes: None })
        }
    }

    /// Write the fields of this packet; the two entity fields come together or
    /// not at all.
    pub fn write(&self, w: &mut Vec<u8>) -> (r: Result<(), ProtoError>)
        ensures
            r is Ok <==> face_player_fits(self@),
            r is Ok ==> final(w)@ == old(w)@ + face_player_bytes(self@),
            r is Err ==> r.unwrap_err() is InvalidOutbound,
    {
        if self.entity_id.is_some() != self.entity_feet_or_eyes.is_some() {
            return Err(ProtoError::InvalidOutbound { reason: reason("entity fields must come together") });
        }
        write_varint(&self.feet_or_eyes, w)?;
        write_u64(&self.x, w)?;
        write_u64(&self.y, w)?;
        write_u64(&self.z, w)?;
        match (self.entity_id, self.entity_feet_or_eyes) {
            (Some(e), Some(g)) => {
                write_bool(&true, w)?;
                write_varint(&e, w)?;
                write_varint(&g, w)?;
            },
            _ => {
                write_bool(&false, w)?;
            },
        }
        assert(w@ =~= old(w)@ + face_player_bytes(self@));
        Ok(())
    }
}

// ---- UnlockRecipes ----

/// Recipe-book changes; action 0 (init) carries a second recipe list.
#[derive(Clone, Debug)]
pub struct UnlockRecipes {
    pub action: i32,
    pub crafting_book_open: bool,
    pub crafting_book_filter: bool,
    pub smelting_book_open: bool,
    pub smelting_book_filter: bool,
    pub recipes: Vec<String>,
    pub recipes2: Vec<String>,
}

impl View for UnlockRecipes {
    type V = (i32, bool, bool, bool, bool, Seq<Seq<char>>, Seq<Seq<char>>);

    open spec fn view(&self) -> Self::V {
        (self.action, self.crafting_book_open, self.crafting_book_filter, self.smelting_book_open,
            self.smelting_book_filter, names_view(self.recipes@), names_view(self.recipes2@))
    }
}

/// A varint count, then that many strings.
pub open spec fn parse_name_list(s: Seq<u8>) -> Option<(Seq<Seq<char>>, Seq<u8>)> {
    match parse_varint(s) {
        Some((n, r)) => if n >= 0 {
            parse_names(r, n as nat)
        } else {
            None
        },
        None => None,
    }
}

/// The wire form of a counted list of strings.
pub open spec fn name_list_bytes(v: Seq<Seq<char>>) -> Seq<u8> {
    varint_bytes(v.len() as i32) + names_bytes(v)
}

/// Read a counted list of strings.
fn read_name_list(rd: &mut Reader) -> (r: Result<Vec<String>, ProtoError>)
    ensures
        match r {
            Ok(v) => parse_name_list(old(rd).rest()) == Some((names_view(v@), final(rd).rest())),
            Err(e) => parse_name_list(old(rd).rest()) is None && e is Malformed,
        },
{
    let n = read_varint(rd)?;
    if n < 0 {
        return Err(ProtoError::Malformed);
    }
    read_names(rd, n)
}

/// Write a counted list of strings.
fn write_name_list(v: &Vec<String>, w: &mut Vec<u8>) -> (r: Result<(), ProtoError>)
    ensures
        r is Ok <==> v@.len() <= i32::MAX && names_fits(names_view(v@)),
        r is Ok ==> final(w)@ == old(w)@ + name_list_bytes(names_view(v@)),
        r is Err ==> r.unwrap_err() is InvalidOutbound,
{
    if v.len() > i32::MAX as usize {
        return Err(ProtoError::InvalidOutbound { reason: reason("list too long") });
    }
    write_varint(&(v.len() as i32), w)?;
    write_names(v, w)?;
    assert(w@ =~= old(w)@ + name_list_bytes(names_view(v@)));
    Ok(())
}

/// The fields of the packet at the front of `s`, and what follows them.
pub open spec fn parse_unlock_recipes(s: Seq<u8>) -> Option<((i32, bool, bool, bool, bool, Seq<Seq<char>>, Seq<Seq<char>>), Seq<u8>)> {
    match parse_varint(s) {
        Some((a, s1)) => match parse_bool(s1) {
            Some((b1, s2)) => match parse_bool(s2) {
                Some((b2, s3)) => match parse_bool(s3) {
                    Some((b3, s4)) => match parse_bool(s4) {
                        Some((b4, s5)) => match parse_name_list(s5) {
                            Some((l1, s6)) => if a == 0 {
                                match parse_name_list(s6) {
                                    Some((l2, s7)) => Some(((a, b1, b2, b3, b4, l1, l2), s7)),
                                    None => None,
                                }
                            } else {
                                Some(((a, b1, b2, b3, b4, l1, seq![]), s6))
                            },
                            None => None,
                        },
                        None => None,
                    },
                    None => None,
                },
                None => None,
            },
            None => None,
        },
        None => None,
    }
}

/// The wire form of the packet's fields.
pub open spec fn unlock_recipes_bytes(v: (i32, bool, bool, bool, bool, Seq<Seq<char>>, Seq<Seq<char>>)) -> Seq<u8> {
    varint_bytes(v.0) + bool_bytes(v.1) + bool_bytes(v.2) + bool_bytes(v.3) + bool_bytes(v.4)
        + name_list_bytes(v.5) + if v.0 == 0 {
        name_list_bytes(v.6)
    } else {
        seq![]
    }
}

/// Whether the packet can be written: its fields agree and fit.
pub open spec fn unlock_recipes_fits(v: (i32, bool, bool, bool, bool, Seq<Seq<char>>, Seq<Seq<char>>)) -> bool {
    &&& v.5.len() <= i32::MAX && names_fits(v.5)
    &&& v.6.len() <= i32::MAX && names_fits(v.6)
    &&& v.0 != 0 ==> v.6.len() == 0
}

impl UnlockRecipes {
    /// Read the fields of an `UnlockRecipes` packet.
    #[verifier::rlimit(60)]
    pub fn deserialize(rd: &mut Reader) -> (r: Result<UnlockRecipes, ProtoError>)
        ensures
            reads_as_view(r, parse_unlock_recipes(old(rd).rest()), final(rd).rest()),
    {
        let action = read_varint(rd)?;
        let crafting_book_open = read_bool(rd)?;
        let crafting_book_filter = read_bool(rd)?;
        let smelting_book_open = read_bool(rd)?;
        let smelting_book_filter = read_bool(rd)?;
        let recipes = read_name_list(rd)?;
        let recipes2 = if action == 0 {
            read_name_list(rd)?
        } else {
            let v: Vec<String> = Vec::new();
            assert(names_view(v@) =~= Seq::<Seq<char>>::empty());
            v
        };
        Ok(UnlockRecipes {
            action,
            crafting_book_open,
            crafting_book_filter,
            smelting_book_open,
            smelting_book_filter,
            recipes,
            recipes2,
        })
    }

    /// Write the fields of this packet; only action 0 may carry a second list.
    #[verifier::rlimit(60)]
    pub fn write(&self, w: &mut Vec<u8>) -> (r: Result<(), ProtoError>)
        ensures
            r is Ok <==> unlock_recipes_fits(self@),
            r is Ok ==> final(w)@ == old(w)@ + unlock_recipes_bytes(self@),
            r is Err ==> r.unwrap_err() is InvalidOutbound,
    {
        if self.action != 0 && self.recipes2.len() != 0 {
            return Err(ProtoError::InvalidOutbound { reason: reason("second recipe list needs action 0") });
        }
        if self.recipes2.len() > i32::MAX as usize {
            return Err(ProtoError::InvalidOutbound { reason: reason("list too long") });
        }
        if !names_all_fit(&self.recipes2) {
            return Err(ProtoError::InvalidOutbound { reason: reason("recipe name too long") });
        }
        write_varint(&self.action, w)?;
        write_bool(&self.crafting_book_open, w)?;
        write_bool(&self.crafting_book_filter, w)?;
        write_bool(&self.smelting_book_open, w)?;
        write_bool(&self.smelting_book_filter, w)?;
        write_name_list(&self.recipes, w)?;
        if self.action == 0 {
            write_name_list(&self.recipes2, w)?;
        }
        assert(w@ =~= old(w)@ + unlock_recipes_bytes(self@));
        Ok(())
    }
}

/// Whether every string fits on the wire.
fn names_all_fit(v: &Vec<String>) -> (r: bool)
    ensures
        r == names_fits(names_view(v@)),
{
    let mut i: usize = 0;
    while i < v.len()
        invariant
            i <= v@.len(),
            forall|j: int| 0 <= j < i ==> name_fits(#[trigger] names_view(v@)[j]),
        decreases v.len() - i,
    {
        let n = v[i].as_str().as_bytes().len();
        assert(names_view(v@)[i as int] == v@[i as int]@);
        if n > i32::MAX as usize {
            assert(!name_fits(names_view(v@)[i as int]));
            return false;
        }
        assert(name_fits(names_view(v@)[i as int]));
        i = i + 1;
    }
    true
}

// ---- SelectAdvancementTab ----

/// The longest advancement tab identifier, in bytes.
pub const MAX_TAB_ID_LEN: usize = 32767;

/// Select an advancement tab, or none.
#[derive(Clone, Debug)]
pub struct SelectAdvancementTab {
    pub identifier: Option<String>,
}

impl View for SelectAdvancementTab {
    type V = Option<Seq<char>>;

    open spec fn view(&self) -> Self::V {
        opt_str(self.identifier)
    }
}

/// The fields of the packet at the front of `s`, and what follows them.
pub open spec fn parse_select_advancement_tab(s: Seq<u8>) -> Option<(Option<Seq<char>>, Seq<u8>)> {
    match parse_bool(s) {
        Some((b, s1)) => if b {
            match parse_string(s1) {
                Some((t, s2)) => if encode_utf8(t).len() <= MAX_TAB_ID_LEN {
                    Some((Some(t), s2))
                } else {
                    None
                },
                None => None,
            }
        } else {
            Some((None, s1))
        },
        None => None,
    }
}

/// The wire form of the packet's fields.
pub open spec fn select_advancement_tab_bytes(v: Option<Seq<char>>) -> Seq<u8> {
    match v {
        Some(t) => bool_bytes(true) + string_bytes(t),
        None => bool_bytes(false),
    }
}

/// Whether the packet can be written: its fields agree and fit.
pub open spec fn select_advancement_tab_fits(v: Option<Seq<char>>) -> bool {
    v is Some ==> encode_utf8(v.unwrap()).len() <= MAX_TAB_ID_LEN
}

impl SelectAdvancementTab {
    /// Read the fields of a `SelectAdvancementTab` packet.
    pub fn deserialize(rd: &mut Reader) -> (r: Result<SelectAdvancementTab, ProtoError>)
        ensures
            reads_as_view(r, parse_select_advancement_tab(old(rd).rest()), final(rd).rest()),
    {
        let has_id = read_bool(rd)?;
        if has_id {
            let t = read_String(rd)?;
            let n = t.as_str().as_bytes().len();
            assert(n == encode_utf8(t@).len());
            if n > MAX_TAB_ID_LEN {
                return Err(ProtoError::Malformed);
            }
            Ok(SelectAdvancementTab { identifier: Some(t) })
        } else {
            Ok(SelectAdvancementTab { identifier: None })
        }
    }

    /// Write the fields of this packet; the identifier may be at most 32767
    /// bytes long.
    pub fn write(&self, w: &mut Vec<u8>) -> (r: Result<(), ProtoError>)
        ensures
            r is Ok <==> select_advancement_tab_fits(self@),
            r is Ok ==> final(w)@ == old(w)@ + select_advancement_tab_bytes(self@),
            r is Err ==> r.unwrap_err() is InvalidOutbound,
    {
        match &self.identifier {
            Some(t) => {
                if t.as_str().as_bytes().len() > MAX_TAB_ID_LEN {
                    return Err(ProtoError::InvalidOutbound { reason: reason("identifier too long") });
                }
                write_bool(&true, w)?;
                write_String(t.as_str(), w)?;
            },
            None => {
                write_bool(&false, w)?;
            },
        }
        assert(w@ =~= old(w)@ + select_advancement_tab_bytes(self@));
        Ok(())
    }
}

// ---- StopSound ----

/// Stop sounds; bit 0 of the flags announces a source, bit 1 a sound name.
#[derive(Clone, Debug)]
pub struct StopSound {
    pub flags: u8,
    pub source: Option<i32>,
    pub sound: Option<String>,
}

impl View for StopSound {
    type V = (u8, Option<i32>, Option<Seq<char>>);

    open spec fn view(&self) -> Self::V {
        (self.flags, self.source, opt_str(self.sound))
    }
}

/// The fields of the packet at the front of `s`, and what follows them.
pub open spec fn parse_stop_sound(s: Seq<u8>) -> Option<((u8, Option<i32>, Option<Seq<char>>), Seq<u8>)> {
    match parse_u8(s) {
        Some((f, s1)) => {
            let src = if f & 1 != 0 {
                match parse_varint(s1) {
                    Some((x, s2)) => Some((Some(x), s2)),
                    None => None,
                }
            } else {
                Some((None, s1))
            };
            match src {
                Some((x, s2)) => if f & 2 != 0 {
                    match parse_string(s2) {
                        Some((t, s3)) => Some(((f, x, Some(t)), s3)),
                        None => None,
                    }
                } else {
                    Some(((f, x, None), s2))
                },
                None => None,
            }
        },
        None => None,
    }
}

/// The wire form of the packet's fields.
pub open spec fn stop_sound_bytes(v: (u8, Option<i32>, Option<Seq<char>>)) -> Seq<u8> {
    seq![v.0] + match v.1 {
        Some(x) => varint_bytes(x),
        None => seq![],
    } + match v.2 {
        Some(t) => string_bytes(t),
        None => seq![],
    }
}

/// Whether the packet can be written: its fields agree and fit.
pub open spec fn stop_sound_fits(v: (u8, Option<i32>, Option<Seq<char>>)) -> bool {
    &&& (v.0 & 1 != 0) <==> v.1 is Some
    &&& (v.0 & 2 != 0) <==> v.2 is Some
    &&& v.2 is Some ==> str_fits(v.2.unwrap())
}

impl StopSound {
    /// Read the fields of a `StopSound` packet.
    pub fn deserialize(rd: &mut Reader) -> (r: Result<StopSound, ProtoError>)
        ensures
            reads_as_view(r, parse_stop_sound(old(rd).rest()), final(rd).rest()),
    {
        let flags = read_u8(rd)?;
        let source = if flags & 1 != 0 {
            Some(read_varint(rd)?)
        } else {
            None
        };
        let sound = if flags & 2 != 0 {
            Some(read_String(rd)?)
        } else {
            None
        };
        Ok(StopSound { flags, source, sound })
    }

    /// Write the fields of this packet; the flags must announce exactly the
    /// fields that are present.
    pub fn write(&self, w: &mut Vec<u8>) -> (r: Result<(), ProtoError>)
        ensures
            r is Ok <==> stop_sound_fits(self@),
            r is Ok ==> final(w)@ == old(w)@ + stop_sound_bytes(self@),
            r is Err ==> r.unwrap_err() is InvalidOutbound,
    {
        if (self.flags & 1 != 0) != self.source.is_some() {
            return Err(ProtoError::InvalidOutbound { reason: reason("flags do not match the source") });
        }
        if (self.flags & 2 != 0) != self.sound.is_some() {
            return Err(ProtoError::InvalidOutbound { reason: reason("flags do not match the sound") });
        }
        write_u8(&self.flags, w)?;
        if let Some(x) = self.source {
            write_varint(&x, w)?;
        }
        if let Some(t) = &self.sound {
            write_String(t.as_str(), w)?;
        }
        assert(w@ =~= old(w)@ + stop_sound_bytes(self@));
        Ok(())
    }
}

impl PlayerAbilities {
    /// Whether the player is invulnerable.
    pub fn is_invulnerable(&self) -> (r: bool)
        ensures
            r == (self.flags & 0x01 != 0),
    {
        (self.flags & 0x01) != 0
    }

    /// Whether the player is flying.
    pub fn is_flying(&self) -> (r: bool)
        ensures
            r == (self.flags & 0x02 != 0),
    {
        (self.flags & 0x02) != 0
    }

    /// Whether the player may fly.
    pub fn allow_flying(&self) -> (r: bool)
        ensures
            r == (self.flags & 0x04 != 0),
    {
        (self.flags & 0x04) != 0
    }

    /// Whether the player is in creative mode.
    pub fn is_creative(&self) -> (r: bool)
        ensures
            r == (self.flags & 0x08 != 0),
    {
        (self.flags & 0x08) != 0
    }
}


/// Whether the strings of one list element are short enough to be read.
pub open spec fn tab_match_readable(v: (Seq<char>, Option<Seq<char>>)) -> bool {
    encode_utf8(v.0).len() <= MAX_STRING_LEN && (v.1 is Some ==> encode_utf8(v.1.unwrap()).len()
        <= MAX_STRING_LEN)
}

/// One list element is read back as written.
pub proof fn lemma_tab_match_round_trip(v: (Seq<char>, Option<Seq<char>>), rest: Seq<u8>)
    requires
        tab_match_fits(v),
        tab_match_readable(v),
    ensures
        parse_tab_match(tab_match_bytes(v) + rest) == Some((v, rest)),
{
    match v.1 {
        Some(t) => {
            let t2 = string_bytes(t) + rest;
            let t1 = bool_bytes(true) + t2;
            assert(tab_match_bytes(v) + rest =~= string_bytes(v.0) + t1);
            lemma_string_round_trip(v.0, t1);
            lemma_bool_round_trip(true, t2);
            lemma_string_round_trip(t, rest);
        },
        None => {
            let t1 = bool_bytes(false) + rest;
            assert(tab_match_bytes(v) + rest =~= string_bytes(v.0) + t1);
            lemma_string_round_trip(v.0, t1);
            lemma_bool_round_trip(false, rest);
        },
    }
}

/// Whether the strings of one list element are short enough to be read.
pub open spec fn block_change_readable(v: (u8, u8, u8, i32)) -> bool {
    true
}

/// One list element is read back as written.
pub proof fn lemma_block_change_round_trip(v: (u8, u8, u8, i32), rest: Seq<u8>)
    requires
        block_change_fits(v),
        block_change_readable(v),
    ensures
        parse_block_change(block_change_bytes(v) + rest) == Some((v, rest)),
{
    let xz = (v.0 * 16 + v.2) as u8;
    assert(xz / 16 == v.0 && xz % 16 == v.2);
    let t2 = varint_bytes(v.3) + rest;
    let t1 = seq![v.1] + t2;
    assert(block_change_bytes(v) + rest =~= seq![xz] + t1);
    lemma_u8_round_trip(xz, t1);
    lemma_u8_round_trip(v.1, t2);
    lemma_varint_round_trip(v.3, rest);
}

/// Reading back written statistics gives them back.
pub proof fn lemma_statistics_round_trip(v: Seq<(Seq<char>, i32)>, rest: Seq<u8>)
    requires
        statistics_fits(v),
        stats_readable(v),
    ensures
        parse_statistics(statistics_bytes(v) + rest) == Some((v, rest)),
{
    let t = stats_bytes(v) + rest;
    assert(statistics_bytes(v) + rest =~= varint_bytes(v.len() as i32) + t);
    lemma_varint_round_trip(v.len() as i32, t);
    lemma_stats_round_trip(v, rest);
}

/// Reading back a written tab-completion answer gives it back.
pub proof fn lemma_clientbound_tab_complete_round_trip(
    v: (i32, i32, i32, Seq<(Seq<char>, Option<Seq<char>>)>),
    rest: Seq<u8>,
)
    requires
        clientbound_tab_complete_fits(v),
        tab_matchs_readable(v.3),
    ensures
        parse_clientbound_tab_complete(clientbound_tab_complete_bytes(v) + rest) == Some((v, rest)),
{
    let t4 = tab_matchs_bytes(v.3) + rest;
    let t3 = varint_bytes(v.3.len() as i32) + t4;
    let t2 = varint_bytes(v.2) + t3;
    let t1 = varint_bytes(v.1) + t2;
    assert(clientbound_tab_complete_bytes(v) + rest =~= varint_bytes(v.0) + t1);
    lemma_varint_round_trip(v.0, t1);
    lemma_varint_round_trip(v.1, t2);
    lemma_varint_round_trip(v.2, t3);
    lemma_varint_round_trip(v.3.len() as i32, t4);
    lemma_tab_matchs_round_trip(v.3, rest);
}

/// Reading back a written block-change packet gives it back.
pub proof fn lemma_multi_block_change_round_trip(v: (i32, i32, Seq<(u8, u8, u8, i32)>), rest: Seq<u8>)
    requires
        multi_block_change_fits(v),
    ensures
        parse_multi_block_change(multi_block_change_bytes(v) + rest) == Some((v, rest)),
{
    let t3 = block_changes_bytes(v.2) + rest;
    let t2 = varint_bytes(v.2.len() as i32) + t3;
    let t1 = be_bytes(unsigned_of(v.1 as int, 0x1_0000_0000), 4) + t2;
    assert(multi_block_change_bytes(v) + rest =~= be_bytes(unsigned_of(v.0 as int, 0x1_0000_0000), 4) + t1);
    lemma_i32_round_trip(v.0, t1);
    lemma_i32_round_trip(v.1, t2);
    lemma_varint_round_trip(v.2.len() as i32, t3);
    lemma_block_changes_round_trip(v.2, rest);
}

/// Reading back a written window packet gives it back, when the strings are
/// short enough to be read.
pub proof fn lemma_open_window_round_trip(v: (u8, Seq<char>, Seq<char>, u8, Option<i32>), rest: Seq<u8>)
    requires
        open_window_fits(v),
        encode_utf8(v.1).len() <= MAX_STRING_LEN,
        encode_utf8(v.2).len() <= MAX_STRING_LEN,
    ensures
        parse_open_window(open_window_bytes(v) + rest) == Some((v, rest)),
{
    let tail = match v.4 {
        Some(e) => be_bytes(unsigned_of(e as int, 0x1_0000_0000), 4),
        None => seq![],
    };
    let t4 = tail + rest;
    let t3 = seq![v.3] + t4;
    let t2 = string_bytes(v.2) + t3;
    let t1 = string_bytes(v.1) + t2;
    assert(open_window_bytes(v) + rest =~= seq![v.0] + t1);
    lemma_u8_round_trip(v.0, t1);
    lemma_string_round_trip(v.1, t2);
    lemma_string_round_trip(v.2, t3);
    lemma_u8_round_trip(v.3, t4);
    match v.4 {
        Some(e) => lemma_i32_round_trip(e, rest),
        None => assert(t4 =~= rest),
    }
}

/// Reading back a written explosion gives it back.
#[verifier::rlimit(100)]
#[verifier::spinoff_prover]
pub proof fn lemma_explosion_round_trip(v: (u32, u32, u32, u32, Seq<(i8, i8, i8)>, u32, u32, u32), rest: Seq<u8>)
    requires
        explosion_fits(v),
    ensures
        parse_explosion(explosion_bytes(v) + rest) == Some((v, rest)),
{
    let t8 = rest;
    let t7 = be_bytes(v.7 as nat, 4) + t8;
    let t6 = be_bytes(v.6 as nat, 4) + t7;
    let t5b = be_bytes(v.5 as nat, 4) + t6;
    let t5 = block_offsets_bytes(v.4) + t5b;
    let t4 = be_bytes(unsigned_of(v.4.len() as int, 0x1_0000_0000), 4) + t5;
    let t3 = be_bytes(v.3 as nat, 4) + t4;
    let t2 = be_bytes(v.2 as nat, 4) + t3;
    let t1 = be_bytes(v.1 as nat, 4) + t2;
    assert(explosion_bytes(v) + rest =~= be_bytes(v.0 as nat, 4) + t1);
    lemma_u32_round_trip(v.0, t1);
    lemma_u32_round_trip(v.1, t2);
    lemma_u32_round_trip(v.2, t3);
    lemma_u32_round_trip(v.3, t4);
    lemma_i32_round_trip(v.4.len() as i32, t5);
    assert forall|i: int| 0 <= i < v.4.len() implies block_offset_fits(#[trigger] v.4[i])
        && block_offset_readable(v.4[i]) by {}
    lemma_block_offsets_round_trip(v.4, t5b);
    lemma_u32_round_trip(v.5, t6);
    lemma_u32_round_trip(v.6, t7);
    lemma_u32_round_trip(v.7, t8);
}

/// Reading back a written combat event gives it back.
pub proof fn lemma_combat_event_round_trip(v: (i32, Option<i32>, Option<i32>, Option<Seq<char>>), rest: Seq<u8>)
    requires
        combat_event_fits(v),
        v.3 is Some ==> encode_utf8(v.3.unwrap()).len() <= MAX_STRING_LEN,
    ensures
        parse_combat_event(combat_event_bytes(v) + rest) == Some((v, rest)),
{
    if v.0 == 0 {
        assert(combat_event_bytes(v) + rest =~= varint_bytes(v.0) + rest);
        lemma_varint_round_trip(v.0, rest);
    } else {
        let d = v.1.unwrap();
        let id = v.2.unwrap();
        let t3 = match v.3 {
            Some(m) => string_bytes(m),
            None => seq![],
        } + rest;
        let t2 = be_bytes(unsigned_of(id as int, 0x1_0000_0000), 4) + t3;
        let t1 = varint_bytes(d) + t2;
        assert(combat_event_bytes(v) + rest =~= varint_bytes(v.0) + t1);
        lemma_varint_round_trip(v.0, t1);
        lemma_varint_round_trip(d, t2);
        lemma_i32_round_trip(id, t3);
        match v.3 {
            Some(m) => lemma_string_round_trip(m, rest),
            None => assert(t3 =~= rest),
        }
    }
}

/// Reading back a written objective gives it back, when the strings are
/// short enough to be read.
pub proof fn lemma_scoreboard_objective_round_trip(v: (Seq<char>, u8, Option<Seq<char>>, Option<Seq<char>>), rest: Seq<u8>)
    requires
        scoreboard_objective_fits(v),
        encode_utf8(v.0).len() <= MAX_STRING_LEN,
        v.2 is Some ==> encode_utf8(v.2.unwrap()).len() <= MAX_STRING_LEN,
        v.3 is Some ==> encode_utf8(v.3.unwrap()).len() <= MAX_STRING_LEN,
    ensures
        parse_scoreboard_objective(scoreboard_objective_bytes(v) + rest) == Some((v, rest)),
{
    if v.1 == 0 || v.1 == 2 {
        let a = v.2.unwrap();
        let b = v.3.unwrap();
        let t3 = string_bytes(b) + rest;
        let t2 = string_bytes(a) + t3;
        let t1 = seq![v.1] + t2;
        assert(scoreboard_objective_bytes(v) + rest =~= string_bytes(v.0) + t1);
        lemma_string_round_trip(v.0, t1);
        lemma_u8_round_trip(v.1, t2);
        lemma_string_round_trip(a, t3);
        lemma_string_round_trip(b, rest);
    } else {
        let t1 = seq![v.1] + rest;
        assert(scoreboard_objective_bytes(v) + rest =~= string_bytes(v.0) + t1);
        lemma_string_round_trip(v.0, t1);
        lemma_u8_round_trip(v.1, rest);
    }
}

/// Reading back a written score update gives it back, when the strings are
/// short enough to be read.
pub proof fn lemma_update_score_round_trip(v: (Seq<char>, u8, Seq<char>, Option<i32>), rest: Seq<u8>)
    requires
        update_score_fits(v),
        encode_utf8(v.0).len() <= MAX_STRING_LEN,
        encode_utf8(v.2).len() <= MAX_STRING_LEN,
    ensures
        parse_update_score(update_score_bytes(v) + rest) == Some((v, rest)),
{
    let t3 = match v.3 {
        Some(x) => varint_bytes(x),
        None => seq![],
    } + rest;
    let t2 = string_bytes(v.2) + t3;
    let t1 = seq![v.1] + t2;
    assert(update_score_bytes(v) + rest =~= string_bytes(v.0) + t1);
    lemma_string_round_trip(v.0, t1);
    lemma_u8_round_trip(v.1, t2);
    lemma_string_round_trip(v.2, t3);
    match v.3 {
        Some(x) => lemma_varint_round_trip(x, rest),
        None => assert(t3 =~= rest),
    }
}

/// Reading back a written title gives it back, when the text is short enough
/// to be read.
pub proof fn lemma_title_round_trip(v: (i32, Option<Seq<char>>, Option<(i32, i32, i32)>), rest: Seq<u8>)
    requires
        title_fits(v),
        v.1 is Some ==> encode_utf8(v.1.unwrap()).len() <= MAX_STRING_LEN,
    ensures
        parse_title(title_bytes(v) + rest) == Some((v, rest)),
{
    match v.1 {
        Some(t) => {
            assert(title_bytes(v) + rest =~= varint_bytes(v.0) + (string_bytes(t) + rest));
            lemma_varint_round_trip(v.0, string_bytes(t) + rest);
            lemma_string_round_trip(t, rest);
        },
        None => match v.2 {
            Some(x) => {
                let t3 = be_bytes(unsigned_of(x.2 as int, 0x1_0000_0000), 4) + rest;
                let t2 = be_bytes(unsigned_of(x.1 as int, 0x1_0000_0000), 4) + t3;
                let t1 = be_bytes(unsigned_of(x.0 as int, 0x1_0000_0000), 4) + t2;
                assert(title_bytes(v) + rest =~= varint_bytes(v.0) + t1);
                lemma_varint_round_trip(v.0, t1);
                lemma_i32_round_trip(x.0, t2);
                lemma_i32_round_trip(x.1, t3);
                lemma_i32_round_trip(x.2, rest);
            },
            None => {
                assert(title_bytes(v) + rest =~= varint_bytes(v.0) + rest);
                lemma_varint_round_trip(v.0, rest);
            },
        },
    }
}

/// Reading back a written face-player packet gives it back.
pub proof fn lemma_face_player_round_trip(v: (i32, u64, u64, u64, Option<i32>, Option<i32>), rest: Seq<u8>)
    requires
        face_player_fits(v),
    ensures
        parse_face_player(face_player_bytes(v) + rest) == Some((v, rest)),
{
    let tail = match (v.4, v.5) {
        (Some(e), Some(g)) => bool_bytes(true) + varint_bytes(e) + varint_bytes(g),
        _ => bool_bytes(false),
    };
    let t4 = tail + rest;
    let t3 = be_bytes(v.3 as nat, 8) + t4;
    let t2 = be_bytes(v.2 as nat, 8) + t3;
    let t1 = be_bytes(v.1 as nat, 8) + t2;
    assert(face_player_bytes(v) + rest =~= varint_bytes(v.0) + t1);
    lemma_varint_round_trip(v.0, t1);
    lemma_u64_round_trip(v.1, t2);
    lemma_u64_round_trip(v.2, t3);
    lemma_u64_round_trip(v.3, t4);
    match (v.4, v.5) {
        (Some(e), Some(g)) => {
            let s2 = varint_bytes(g) + rest;
            let s1 = varint_bytes(e) + s2;
            assert(t4 =~= bool_bytes(true) + s1);
            lemma_bool_round_trip(true, s1);
            lemma_varint_round_trip(e, s2);
            lemma_varint_round_trip(g, rest);
        },
        _ => {
            lemma_bool_round_trip(false, rest);
        },
    }
}

/// A counted list of strings is read back as written.
proof fn lemma_name_list_round_trip(v: Seq<Seq<char>>, rest: Seq<u8>)
    requires
        v.len() <= i32::MAX,
        names_fits(v),
        names_readable(v),
    ensures
        parse_name_list(name_list_bytes(v) + rest) == Some((v, rest)),
{
    let t = names_bytes(v) + rest;
    assert(name_list_bytes(v) + rest =~= varint_bytes(v.len() as i32) + t);
    lemma_varint_round_trip(v.len() as i32, t);
    lemma_names_round_trip(v, rest);
}

/// Reading back a written recipe update gives it back, when the names are
/// short enough to be read.
#[verifier::rlimit(100)]
#[verifier::spinoff_prover]
pub proof fn lemma_unlock_recipes_round_trip(v: (i32, bool, bool, bool, bool, Seq<Seq<char>>, Seq<Seq<char>>), rest: Seq<u8>)
    requires
        unlock_recipes_fits(v),
        names_readable(v.5),
        names_readable(v.6),
    ensures
        parse_unlock_recipes(unlock_recipes_bytes(v) + rest) == Some((v, rest)),
{
    let second = if v.0 == 0 {
        name_list_bytes(v.6)
    } else {
        seq![]
    };
    let t6 = second + rest;
    let t5 = name_list_bytes(v.5) + t6;
    let t4 = bool_bytes(v.4) + t5;
    let t3 = bool_bytes(v.3) + t4;
    let t2 = bool_bytes(v.2) + t3;
    let t1 = bool_bytes(v.1) + t2;
    assert(unlock_recipes_bytes(v) + rest =~= varint_bytes(v.0) + t1);
    lemma_varint_round_trip(v.0, t1);
    lemma_bool_round_trip(v.1, t2);
    lemma_bool_round_trip(v.2, t3);
    lemma_bool_round_trip(v.3, t4);
    lemma_bool_round_trip(v.4, t5);
    lemma_name_list_round_trip(v.5, t6);
    if v.0 == 0 {
        lemma_name_list_round_trip(v.6, rest);
    } else {
        assert(t6 =~= rest);
        assert(v.6 =~= Seq::<Seq<char>>::empty());
    }
}

/// Reading back a written tab selection gives it back.
pub proof fn lemma_select_advancement_tab_round_trip(v: Option<Seq<char>>, rest: Seq<u8>)
    requires
        select_advancement_tab_fits(v),
    ensures
        parse_select_advancement_tab(select_advancement_tab_bytes(v) + rest) == Some((v, rest)),
{
    match v {
        Some(t) => {
            assert(select_advancement_tab_bytes(v) + rest =~= bool_bytes(true) + (string_bytes(t) + rest));
            lemma_bool_round_trip(true, string_bytes(t) + rest);
            lemma_string_round_trip(t, rest);
        },
        None => {
            lemma_bool_round_trip(false, rest);
        },
    }
}

/// Reading back a written stop-sound packet gives it back, when the sound
/// name is short enough to be read.
pub proof fn lemma_stop_sound_round_trip(v: (u8, Option<i32>, Option<Seq<char>>), rest: Seq<u8>)
    requires
        stop_sound_fits(v),
        v.2 is Some ==> encode_utf8(v.2.unwrap()).len() <= MAX_STRING_LEN,
    ensures
        parse_stop_sound(stop_sound_bytes(v) + rest) == Some((v, rest)),
{
    let t2 = match v.2 {
        Some(t) => string_bytes(t),
        None => seq![],
    } + rest;
    let t1 = match v.1 {
        Some(x) => varint_bytes(x),
        None => seq![],
    } + t2;
    assert(stop_sound_bytes(v) + rest =~= seq![v.0] + t1);
    lemma_u8_round_trip(v.0, t1);
    match v.1 {
        Some(x) => lemma_varint_round_trip(x, t2),
        None => assert(t1 =~= t2),
    }
    match v.2 {
        Some(t) => lemma_string_round_trip(t, rest),
        None => assert(t2 =~= rest),
    }
}

/// Every packet that travels clientbound.
#[derive(Clone, Debug)]
pub enum ClientboundPacket {
    StatusResponse(StatusResponse),
    StatusPong(StatusPong),
    LoginDisconnect(LoginDisconnect),
    EncryptionRequest(EncryptionRequest),
    LoginSuccess(LoginSuccess),
    SetCompression(SetCompression),
    Statistics(Statistics),
    ChatMessage(ChatMessage),
    MultiBlockChange(MultiBlockChange),
    ClientboundTabComplete(ClientboundTabComplete),
    OpenWindow(OpenWindow),
    PlayDisconnect(PlayDisconnect),
    Explosion(Explosion),
    KeepAlive(KeepAlive),
    Particle(Particle),
    PlayerAbilities(PlayerAbilities),
    CombatEvent(CombatEvent),
    FacePlayer(FacePlayer),
    UnlockRecipes(UnlockRecipes),
    SelectAdvancementTab(SelectAdvancementTab),
    ScoreboardObjective(ScoreboardObjective),
    UpdateScore(UpdateScore),
    Title(Title),
    StopSound(StopSound),
}

/// The state and identifier under which a packet travels.
pub open spec fn clientbound_packet_key(p: ClientboundPacket) -> (ClientState, i32) {
    match p {
        ClientboundPacket::StatusResponse(p) => (ClientState::Status, 0x00),
        ClientboundPacket::StatusPong(p) => (ClientState::Status, 0x01),
        ClientboundPacket::LoginDisconnect(p) => (ClientState::Login, 0x00),
        ClientboundPacket::EncryptionRequest(p) => (ClientState::Login, 0x01),
        ClientboundPacket::LoginSuccess(p) => (ClientState::Login, 0x02),
        ClientboundPacket::SetCompression(p) => (ClientState::Login, 0x03),
        ClientboundPacket::Statistics(p) => (ClientState::Play, 0x07),
        ClientboundPacket::ChatMessage(p) => (ClientState::Play, 0x0e),
        ClientboundPacket::MultiBlockChange(p) => (ClientState::Play, 0x0f),
        ClientboundPacket::ClientboundTabComplete(p) => (ClientState::Play, 0x10),
        ClientboundPacket::OpenWindow(p) => (ClientState::Play, 0x14),
        ClientboundPacket::PlayDisconnect(p) => (ClientState::Play, 0x1b),
        ClientboundPacket::Explosion(p) => (ClientState::Play, 0x1e),
        ClientboundPacket::KeepAlive(p) => (ClientState::Play, 0x21),
        ClientboundPacket::Particle(p) => (ClientState::Play, 0x24),
        ClientboundPacket::PlayerAbilities(p) => (ClientState::Play, 0x2e),
        ClientboundPacket::CombatEvent(p) => (ClientState::Play, 0x2f),
        ClientboundPacket::FacePlayer(p) => (ClientState::Play, 0x31),
        ClientboundPacket::UnlockRecipes(p) => (ClientState::Play, 0x34),
        ClientboundPacket::SelectAdvancementTab(p) => (ClientState::Play, 0x3a),
        ClientboundPacket::ScoreboardObjective(p) => (ClientState::Play, 0x45),
        ClientboundPacket::UpdateScore(p) => (ClientState::Play, 0x48),
        ClientboundPacket::Title(p) => (ClientState::Play, 0x4b),
        ClientboundPacket::StopSound(p) => (ClientState::Play, 0x4c),
    }
}

/// Whether a packet is known under this state and identifier.
pub open spec fn clientbound_packet_known(state: ClientState, id: i32) -> bool {
    (state == ClientState::Status && id == 0x00) ||
    (state == ClientState::Status && id == 0x01) ||
    (state == ClientState::Login && id == 0x00) ||
    (state == ClientState::Login && id == 0x01) ||
    (state == ClientState::Login && id == 0x02) ||
    (state == ClientState::Login && id == 0x03) ||
    (state == ClientState::Play && id == 0x07) ||
    (state == ClientState::Play && id == 0x0e) ||
    (state == ClientState::Play && id == 0x0f) ||
    (state == ClientState::Play && id == 0x10) ||
    (state == ClientState::Play && id == 0x14) ||
    (state == ClientState::Play && id == 0x1b) ||
    (state == ClientState::Play && id == 0x1e) ||
    (state == ClientState::Play && id == 0x21) ||
    (state == ClientState::Play && id == 0x24) ||
    (state == ClientState::Play && id == 0x2e) ||
    (state == ClientState::Play && id == 0x2f) ||
    (state == ClientState::Play && id == 0x31) ||
    (state == ClientState::Play && id == 0x34) ||
    (state == ClientState::Play && id == 0x3a) ||
    (state == ClientState::Play && id == 0x45) ||
    (state == ClientState::Play && id == 0x48) ||
    (state == ClientState::Play && id == 0x4b) ||
    (state == ClientState::Play && id == 0x4c)
}

/// Whether the body of the packet known under this state and identifier parses.
pub open spec fn clientbound_packet_body_parses(state: ClientState, id: i32, s: Seq<u8>) -> bool {
    if state == ClientState::Status && id == 0x00 {
        parse_status_response(s) is Some
    } else if state == ClientState::Status && id == 0x01 {
        parse_status_pong(s) is Some
    } else if state == ClientState::Login && id == 0x00 {
        parse_login_disconnect(s) is Some
    } else if state == ClientState::Login && id == 0x01 {
        parse_encryption_request(s) is Some
    } else if state == ClientState::Login && id == 0x02 {
        parse_login_success(s) is Some
    } else if state == ClientState::Login && id == 0x03 {
        parse_set_compression(s) is Some
    } else if state == ClientState::Play && id == 0x07 {
        parse_statistics(s) is Some
    } else if state == ClientState::Play && id == 0x0e {
        parse_chat_message(s) is Some
    } else if state == ClientState::Play && id == 0x0f {
        parse_multi_block_change(s) is Some
    } else if state == ClientState::Play && id == 0x10 {
        parse_clientbound_tab_complete(s) is Some
    } else if state == ClientState::Play && id == 0x14 {
        parse_open_window(s) is Some
    } else if state == ClientState::Play && id == 0x1b {
        parse_play_disconnect(s) is Some
    } else if state == ClientState::Play && id == 0x1e {
        parse_explosion(s) is Some
    } else if state == ClientState::Play && id == 0x21 {
        parse_keep_alive(s) is Some
    } else if state == ClientState::Play && id == 0x24 {
        parse_particle(s) is Some
    } else if state == ClientState::Play && id == 0x2e {
        parse_player_abilities(s) is Some
    } else if state == ClientState::Play && id == 0x2f {
        parse_combat_event(s) is Some
    } else if state == ClientState::Play && id == 0x31 {
        parse_face_player(s) is Some
    } else if state == ClientState::Play && id == 0x34 {
        parse_unlock_recipes(s) is Some
    } else if state == ClientState::Play && id == 0x3a {
        parse_select_advancement_tab(s) is Some
    } else if state == ClientState::Play && id == 0x45 {
        parse_scoreboard_objective(s) is Some
    } else if state == ClientState::Play && id == 0x48 {
        parse_update_score(s) is Some
    } else if state == ClientState::Play && id == 0x4b {
        parse_title(s) is Some
    } else if state == ClientState::Play && id == 0x4c {
        parse_stop_sound(s) is Some
    } else {
        false
    }
}

/// The packet is what its body parses to.
pub open spec fn clientbound_packet_parsed_from(p: ClientboundPacket, s: Seq<u8>) -> bool {
    match p {
        ClientboundPacket::StatusResponse(p) => parse_status_response(s) is Some && parse_status_response(s).unwrap().0 == p@,
        ClientboundPacket::StatusPong(p) => parse_status_pong(s) is Some && parse_status_pong(s).unwrap().0 == p@,
        ClientboundPacket::LoginDisconnect(p) => parse_login_disconnect(s) is Some && parse_login_disconnect(s).unwrap().0 == p@,
        ClientboundPacket::EncryptionRequest(p) => parse_encryption_request(s) is Some && parse_encryption_request(s).unwrap().0 == p@,
        ClientboundPacket::LoginSuccess(p) => parse_login_success(s) is Some && parse_login_success(s).unwrap().0 == p@,
        ClientboundPacket::SetCompression(p) => parse_set_compression(s) is Some && parse_set_compression(s).unwrap().0 == p@,
        ClientboundPacket::Statistics(p) => parse_statistics(s) is Some && parse_statistics(s).unwrap().0 == p@,
        ClientboundPacket::ChatMessage(p) => parse_chat_message(s) is Some && parse_chat_message(s).unwrap().0 == p@,
        ClientboundPacket::MultiBlockChange(p) => parse_multi_block_change(s) is Some && parse_multi_block_change(s).unwrap().0 == p@,
        ClientboundPacket::ClientboundTabComplete(p) => parse_clientbound_tab_complete(s) is Some && parse_clientbound_tab_complete(s).unwrap().0 == p@,
        ClientboundPacket::OpenWindow(p) => parse_open_window(s) is Some && parse_open_window(s).unwrap().0 == p@,
        ClientboundPacket::PlayDisconnect(p) => parse_play_disconnect(s) is Some && parse_play_disconnect(s).unwrap().0 == p@,
        ClientboundPacket::Explosion(p) => parse_explosion(s) is Some && parse_explosion(s).unwrap().0 == p@,
        ClientboundPacket::KeepAlive(p) => parse_keep_alive(s) is Some && parse_keep_alive(s).unwrap().0 == p@,
        ClientboundPacket::Particle(p) => parse_particle(s) is Some && parse_particle(s).unwrap().0 == p@,
        ClientboundPacket::PlayerAbilities(p) => parse_player_abilities(s) is Some && parse_player_abilities(s).unwrap().0 == p@,
        ClientboundPacket::CombatEvent(p) => parse_combat_event(s) is Some && parse_combat_event(s).unwrap().0 == p@,
        ClientboundPacket::FacePlayer(p) => parse_face_player(s) is Some && parse_face_player(s).unwrap().0 == p@,
        ClientboundPacket::UnlockRecipes(p) => parse_unlock_recipes(s) is Some && parse_unlock_recipes(s).unwrap().0 == p@,
        ClientboundPacket::SelectAdvancementTab(p) => parse_select_advancement_tab(s) is Some && parse_select_advancement_tab(s).unwrap().0 == p@,
        ClientboundPacket::ScoreboardObjective(p) => parse_scoreboard_objective(s) is Some && parse_scoreboard_objective(s).unwrap().0 == p@,
        ClientboundPacket::UpdateScore(p) => parse_update_score(s) is Some && parse_update_score(s).unwrap().0 == p@,
        ClientboundPacket::Title(p) => parse_title(s) is Some && parse_title(s).unwrap().0 == p@,
        ClientboundPacket::StopSound(p) => parse_stop_sound(s) is Some && parse_stop_sound(s).unwrap().0 == p@,
    }
}

/// The wire form of a packet's fields, after its identifier.
pub open spec fn clientbound_packet_body_bytes(p: ClientboundPacket) -> Seq<u8> {
    match p {
        ClientboundPacket::StatusResponse(p) => status_response_bytes(p@),
        ClientboundPacket::StatusPong(p) => status_pong_bytes(p@),
        ClientboundPacket::LoginDisconnect(p) => login_disconnect_bytes(p@),
        ClientboundPacket::EncryptionRequest(p) => encryption_request_bytes(p@),
        ClientboundPacket::LoginSuccess(p) => login_success_bytes(p@),
        ClientboundPacket::SetCompression(p) => set_compression_bytes(p@),
        ClientboundPacket::Statistics(p) => statistics_bytes(p@),
        ClientboundPacket::ChatMessage(p) => chat_message_bytes(p@),
        ClientboundPacket::MultiBlockChange(p) => multi_block_change_bytes(p@),
        ClientboundPacket::ClientboundTabComplete(p) => clientbound_tab_complete_bytes(p@),
        ClientboundPacket::OpenWindow(p) => open_window_bytes(p@),
        ClientboundPacket::PlayDisconnect(p) => play_disconnect_bytes(p@),
        ClientboundPacket::Explosion(p) => explosion_bytes(p@),
        ClientboundPacket::KeepAlive(p) => keep_alive_bytes(p@),
        ClientboundPacket::Particle(p) => particle_bytes(p@),
        ClientboundPacket::PlayerAbilities(p) => player_abilities_bytes(p@),
        ClientboundPacket::CombatEvent(p) => combat_event_bytes(p@),
        ClientboundPacket::FacePlayer(p) => face_player_bytes(p@),
        ClientboundPacket::UnlockRecipes(p) => unlock_recipes_bytes(p@),
        ClientboundPacket::SelectAdvancementTab(p) => select_advancement_tab_bytes(p@),
        ClientboundPacket::ScoreboardObjective(p) => scoreboard_objective_bytes(p@),
        ClientboundPacket::UpdateScore(p) => update_score_bytes(p@),
        ClientboundPacket::Title(p) => title_bytes(p@),
        ClientboundPacket::StopSound(p) => stop_sound_bytes(p@),
    }
}

/// Whether a packet can be written: its fields are consistent and fit.
pub open spec fn clientbound_packet_fits(p: ClientboundPacket) -> bool {
    match p {
        ClientboundPacket::StatusResponse(p) => status_response_fits(p@),
        ClientboundPacket::StatusPong(p) => true,
        ClientboundPacket::LoginDisconnect(p) => login_disconnect_fits(p@),
        ClientboundPacket::EncryptionRequest(p) => encryption_request_fits(p@),
        ClientboundPacket::LoginSuccess(p) => login_success_fits(p@),
        ClientboundPacket::SetCompression(p) => true,
        ClientboundPacket::Statistics(p) => statistics_fits(p@),
        ClientboundPacket::ChatMessage(p) => chat_message_fits(p@),
        ClientboundPacket::MultiBlockChange(p) => multi_block_change_fits(p@),
        ClientboundPacket::ClientboundTabComplete(p) => clientbound_tab_complete_fits(p@),
        ClientboundPacket::OpenWindow(p) => open_window_fits(p@),
        ClientboundPacket::PlayDisconnect(p) => play_disconnect_fits(p@),
        ClientboundPacket::Explosion(p) => explosion_fits(p@),
        ClientboundPacket::KeepAlive(p) => true,
        ClientboundPacket::Particle(p) => true,
        ClientboundPacket::PlayerAbilities(p) => true,
        ClientboundPacket::CombatEvent(p) => combat_event_fits(p@),
        ClientboundPacket::FacePlayer(p) => face_player_fits(p@),
        ClientboundPacket::UnlockRecipes(p) => unlock_recipes_fits(p@),
        ClientboundPacket::SelectAdvancementTab(p) => select_advancement_tab_fits(p@),
        ClientboundPacket::ScoreboardObjective(p) => scoreboard_objective_fits(p@),
        ClientboundPacket::UpdateScore(p) => update_score_fits(p@),
        ClientboundPacket::Title(p) => title_fits(p@),
        ClientboundPacket::StopSound(p) => stop_sound_fits(p@),
    }
}

impl ClientboundPacket {
    /// Decode a packet (identifier and fields) that arrived in `state`.
    pub fn deserialize(data: &[u8], state: ClientState) -> (r: Result<ClientboundPacket, ProtoError>)
        ensures
            match parse_varint(data@) {
                None => r is Err && r.unwrap_err() is Malformed,
                Some((id, body)) => if clientbound_packet_known(state, id) {
                    &&& r is Ok <==> clientbound_packet_body_parses(state, id, body)
                    &&& r is Ok ==> clientbound_packet_key(r.unwrap()) == (state, id) && clientbound_packet_parsed_from(r.unwrap(), body)
                    &&& r is Err ==> r.unwrap_err() is Malformed
                } else {
                    match r {
                        Err(ProtoError::UnknownPacket { direction, state: st, id: i }) => direction
                            == Direction::Clientbound && st == state && i == id,
                        _ => false,
                    }
                },
            },
    {
        let mut rd = Reader::from_slice(data);
        let id = read_varint(&mut rd)?;
        match state {
            ClientState::Handshake => Err(ProtoError::UnknownPacket { direction: Direction::Clientbound, state, id }),
            ClientState::Status => Self::deserialize_status(&mut rd, id),
            ClientState::Login => Self::deserialize_login(&mut rd, id),
            ClientState::Play => Self::deserialize_play(&mut rd, id),
        }
    }

    #[verifier::rlimit(50)]
    fn deserialize_status(rd: &mut Reader, id: i32) -> (r: Result<ClientboundPacket, ProtoError>)
        ensures
            clientbound_packet_known(ClientState::Status, id) ==> {
                &&& r is Ok <==> clientbound_packet_body_parses(ClientState::Status, id, old(rd).rest())
                &&& r is Ok ==> clientbound_packet_key(r.unwrap()) == (ClientState::Status, id) && clientbound_packet_parsed_from(r.unwrap(), old(rd).rest())
                &&& r is Err ==> r.unwrap_err() is Malformed
            },
            !clientbound_packet_known(ClientState::Status, id) ==> match r {
                Err(ProtoError::UnknownPacket { direction, state: st, id: i }) => direction
                    == Direction::Clientbound && st == ClientState::Status && i == id,
                _ => false,
            },
    {
        if id == 0x00 {
            let p = StatusResponse::deserialize(rd)?;
            return Ok(ClientboundPacket::StatusResponse(p));
        }
        if id == 0x01 {
            let p = StatusPong::deserialize(rd)?;
            return Ok(ClientboundPacket::StatusPong(p));
        }
        Err(ProtoError::UnknownPacket { direction: Direction::Clientbound, state: ClientState::Status, id })
    }

    #[verifier::rlimit(50)]
    fn deserialize_login(rd: &mut Reader, id: i32) -> (r: Result<ClientboundPacket, ProtoError>)
        ensures
            clientbound_packet_known(ClientState::Login, id) ==> {
                &&& r is Ok <==> clientbound_packet_body_parses(ClientState::Login, id, old(rd).rest())
                &&& r is Ok ==> clientbound_packet_key(r.unwrap()) == (ClientState::Login, id) && clientbound_packet_parsed_from(r.unwrap(), old(rd).rest())
                &&& r is Err ==> r.unwrap_err() is Malformed
            },
            !clientbound_packet_known(ClientState::Login, id) ==> match r {
                Err(ProtoError::UnknownPacket { direction, state: st, id: i }) => direction
                    == Direction::Clientbound && st == ClientState::Login && i == id,
                _ => false,
            },
    {
        if id == 0x00 {
            let p = LoginDisconnect::deserialize(rd)?;
            return Ok(ClientboundPacket::LoginDisconnect(p));
        }
        if id == 0x01 {
            let p = EncryptionRequest::deserialize(rd)?;
            return Ok(ClientboundPacket::EncryptionRequest(p));
        }
        if id == 0x02 {
            let p = LoginSuccess::deserialize(rd)?;
            return Ok(ClientboundPacket::LoginSuccess(p));
        }
        if id == 0x03 {
            let p = SetCompression::deserialize(rd)?;
            return Ok(ClientboundPacket::SetCompression(p));
        }
        Err(ProtoError::UnknownPacket { direction: Direction::Clientbound, state: ClientState::Login, id })
    }

    #[verifier::rlimit(50)]
    fn deserialize_play(rd: &mut Reader, id: i32) -> (r: Result<ClientboundPacket, ProtoError>)
        ensures
            clientbound_packet_known(ClientState::Play, id) ==> {
                &&& r is Ok <==> clientbound_packet_body_parses(ClientState::Play, id, old(rd).rest())
                &&& r is Ok ==> clientbound_packet_key(r.unwrap()) == (ClientState::Play, id) && clientbound_packet_parsed_from(r.unwrap(), old(rd).rest())
                &&& r is Err ==> r.unwrap_err() is Malformed
            },
            !clientbound_packet_known(ClientState::Play, id) ==> match r {
                Err(ProtoError::UnknownPacket { direction, state: st, id: i }) => direction
                    == Direction::Clientbound && st == ClientState::Play && i == id,
                _ => false,
            },
    {
        if id == 0x07 {
            let p = Statistics::deserialize(rd)?;
            return Ok(ClientboundPacket::Statistics(p));
        }
        if id == 0x0e {
            let p = ChatMessage::deserialize(rd)?;
            return Ok(ClientboundPacket::ChatMessage(p));
        }
        if id == 0x0f {
            let p = MultiBlockChange::deserialize(rd)?;
            return Ok(ClientboundPacket::MultiBlockChange(p));
        }
        if id == 0x10 {
            let p = ClientboundTabComplete::deserialize(rd)?;
            return Ok(ClientboundPacket::ClientboundTabComplete(p));
        }
        if id == 0x14 {
            let p = OpenWindow::deserialize(rd)?;
            return Ok(ClientboundPacket::OpenWindow(p));
        }
        if id == 0x1b {
            let p = PlayDisconnect::deserialize(rd)?;
            return Ok(ClientboundPacket::PlayDisconnect(p));
        }
        if id == 0x1e {
            let p = Explosion::deserialize(rd)?;
            return Ok(ClientboundPacket::Explosion(p));
        }
        if id == 0x21 {
            let p = KeepAlive::deserialize(rd)?;
            return Ok(ClientboundPacket::KeepAlive(p));
        }
        if id == 0x24 {
            let p = Particle::deserialize(rd)?;
            return Ok(ClientboundPacket::Particle(p));
        }
        if id == 0x2e {
            let p = PlayerAbilities::deserialize(rd)?;
            return Ok(ClientboundPacket::PlayerAbilities(p));
        }
        if id == 0x2f {
            let p = CombatEvent::deserialize(rd)?;
            return Ok(ClientboundPacket::CombatEvent(p));
        }
        if id == 0x31 {
            let p = FacePlayer::deserialize(rd)?;
            return Ok(ClientboundPacket::FacePlayer(p));
        }
        if id == 0x34 {
            let p = UnlockRecipes::deserialize(rd)?;
            return Ok(ClientboundPacket::UnlockRecipes(p));
        }
        if id == 0x3a {
            let p = SelectAdvancementTab::deserialize(rd)?;
            return Ok(ClientboundPacket::SelectAdvancementTab(p));
        }
        if id == 0x45 {
            let p = ScoreboardObjective::deserialize(rd)?;
            return Ok(ClientboundPacket::ScoreboardObjective(p));
        }
        if id == 0x48 {
            let p = UpdateScore::deserialize(rd)?;
            return Ok(ClientboundPacket::UpdateScore(p));
        }
        if id == 0x4b {
            let p = Title::deserialize(rd)?;
            return Ok(ClientboundPacket::Title(p));
        }
        if id == 0x4c {
            let p = StopSound::deserialize(rd)?;
            return Ok(ClientboundPacket::StopSound(p));
        }
        Err(ProtoError::UnknownPacket { direction: Direction::Clientbound, state: ClientState::Play, id })
    }

    /// The packet's identifier.
    pub fn get_id(&self) -> (r: i32)
        ensures
            r == clientbound_packet_key(*self).1,
    {
        match self {
            ClientboundPacket::StatusResponse(_) => 0x00,
            ClientboundPacket::StatusPong(_) => 0x01,
            ClientboundPacket::LoginDisconnect(_) => 0x00,
            ClientboundPacket::EncryptionRequest(_) => 0x01,
            ClientboundPacket::LoginSuccess(_) => 0x02,
            ClientboundPacket::SetCompression(_) => 0x03,
            ClientboundPacket::Statistics(_) => 0x07,
            ClientboundPacket::ChatMessage(_) => 0x0e,
            ClientboundPacket::MultiBlockChange(_) => 0x0f,
            ClientboundPacket::ClientboundTabComplete(_) => 0x10,
            ClientboundPacket::OpenWindow(_) => 0x14,
            ClientboundPacket::PlayDisconnect(_) => 0x1b,
            ClientboundPacket::Explosion(_) => 0x1e,
            ClientboundPacket::KeepAlive(_) => 0x21,
            ClientboundPacket::Particle(_) => 0x24,
            ClientboundPacket::PlayerAbilities(_) => 0x2e,
            ClientboundPacket::CombatEvent(_) => 0x2f,
            ClientboundPacket::FacePlayer(_) => 0x31,
            ClientboundPacket::UnlockRecipes(_) => 0x34,
            ClientboundPacket::SelectAdvancementTab(_) => 0x3a,
            ClientboundPacket::ScoreboardObjective(_) => 0x45,
            ClientboundPacket::UpdateScore(_) => 0x48,
            ClientboundPacket::Title(_) => 0x4b,
            ClientboundPacket::StopSound(_) => 0x4c,
        }
    }

    /// The state in which the packet travels.
    pub fn get_clientstate(&self) -> (r: ClientState)
        ensures
            r == clientbound_packet_key(*self).0,
    {
        match self {
            ClientboundPacket::StatusResponse(_) => ClientState::Status,
            ClientboundPacket::StatusPong(_) => ClientState::Status,
            ClientboundPacket::LoginDisconnect(_) => ClientState::Login,
            ClientboundPacket::EncryptionRequest(_) => ClientState::Login,
            ClientboundPacket::LoginSuccess(_) => ClientState::Login,
            ClientboundPacket::SetCompression(_) => ClientState::Login,
            ClientboundPacket::Statistics(_) => ClientState::Play,
            ClientboundPacket::ChatMessage(_) => ClientState::Play,
            ClientboundPacket::MultiBlockChange(_) => ClientState::Play,
            ClientboundPacket::ClientboundTabComplete(_) => ClientState::Play,
            ClientboundPacket::OpenWindow(_) => ClientState::Play,
            ClientboundPacket::PlayDisconnect(_) => ClientState::Play,
            ClientboundPacket::Explosion(_) => ClientState::Play,
            ClientboundPacket::KeepAlive(_) => ClientState::Play,
            ClientboundPacket::Particle(_) => ClientState::Play,
            ClientboundPacket::PlayerAbilities(_) => ClientState::Play,
            ClientboundPacket::CombatEvent(_) => ClientState::Play,
            ClientboundPacket::FacePlayer(_) => ClientState::Play,
            ClientboundPacket::UnlockRecipes(_) => ClientState::Play,
            ClientboundPacket::SelectAdvancementTab(_) => ClientState::Play,
            ClientboundPacket::ScoreboardObjective(_) => ClientState::Play,
            ClientboundPacket::UpdateScore(_) => ClientState::Play,
            ClientboundPacket::Title(_) => ClientState::Play,
            ClientboundPacket::StopSound(_) => ClientState::Play,
        }
    }

    /// The packet's name.
    pub fn get_packet_name(&self) -> &'static str {
        match self {
            ClientboundPacket::StatusResponse(_) => "StatusResponse",
            ClientboundPacket::StatusPong(_) => "StatusPong",
            ClientboundPacket::LoginDisconnect(_) => "LoginDisconnect",
            ClientboundPacket::EncryptionRequest(_) => "EncryptionRequest",
            ClientboundPacket::LoginSuccess(_) => "LoginSuccess",
            ClientboundPacket::SetCompression(_) => "SetCompression",
            ClientboundPacket::Statistics(_) => "Statistics",
            ClientboundPacket::ChatMessage(_) => "ChatMessage",
            ClientboundPacket::MultiBlockChange(_) => "MultiBlockChange",
            ClientboundPacket::ClientboundTabComplete(_) => "ClientboundTabComplete",
            ClientboundPacket::OpenWindow(_) => "OpenWindow",
            ClientboundPacket::PlayDisconnect(_) => "PlayDisconnect",
            ClientboundPacket::Explosion(_) => "Explosion",
            ClientboundPacket::KeepAlive(_) => "KeepAlive",
            ClientboundPacket::Particle(_) => "Particle",
            ClientboundPacket::PlayerAbilities(_) => "PlayerAbilities",
            ClientboundPacket::CombatEvent(_) => "CombatEvent",
            ClientboundPacket::FacePlayer(_) => "FacePlayer",
            ClientboundPacket::UnlockRecipes(_) => "UnlockRecipes",
            ClientboundPacket::SelectAdvancementTab(_) => "SelectAdvancementTab",
            ClientboundPacket::ScoreboardObjective(_) => "ScoreboardObjective",
            ClientboundPacket::UpdateScore(_) => "UpdateScore",
            ClientboundPacket::Title(_) => "Title",
            ClientboundPacket::StopSound(_) => "StopSound",
        }
    }

    /// Encode the packet: its identifier as a varint, then its fields.
    pub fn to_u8(&self) -> (r: Result<Vec<u8>, ProtoError>)
        ensures
            r is Ok <==> clientbound_packet_fits(*self),
            r is Ok ==> r.unwrap()@ == varint_bytes(clientbound_packet_key(*self).1) + clientbound_packet_body_bytes(*self),
            r is Err ==> r.unwrap_err() is InvalidOutbound,
    {
        let mut w: Vec<u8> = Vec::new();
        write_varint(&self.get_id(), &mut w)?;
        match self {
            ClientboundPacket::StatusResponse(p) => p.write(&mut w)?,
            ClientboundPacket::StatusPong(p) => p.write(&mut w)?,
            ClientboundPacket::LoginDisconnect(p) => p.write(&mut w)?,
            ClientboundPacket::EncryptionRequest(p) => p.write(&mut w)?,
            ClientboundPacket::LoginSuccess(p) => p.write(&mut w)?,
            ClientboundPacket::SetCompression(p) => p.write(&mut w)?,
            ClientboundPacket::Statistics(p) => p.write(&mut w)?,
            ClientboundPacket::ChatMessage(p) => p.write(&mut w)?,
            ClientboundPacket::MultiBlockChange(p) => p.write(&mut w)?,
            ClientboundPacket::ClientboundTabComplete(p) => p.write(&mut w)?,
            ClientboundPacket::OpenWindow(p) => p.write(&mut w)?,
            ClientboundPacket::PlayDisconnect(p) => p.write(&mut w)?,
            ClientboundPacket::Explosion(p) => p.write(&mut w)?,
            ClientboundPacket::KeepAlive(p) => p.write(&mut w)?,
            ClientboundPacket::Particle(p) => p.write(&mut w)?,
            ClientboundPacket::PlayerAbilities(p) => p.write(&mut w)?,
            ClientboundPacket::CombatEvent(p) => p.write(&mut w)?,
            ClientboundPacket::FacePlayer(p) => p.write(&mut w)?,
            ClientboundPacket::UnlockRecipes(p) => p.write(&mut w)?,
            ClientboundPacket::SelectAdvancementTab(p) => p.write(&mut w)?,
            ClientboundPacket::ScoreboardObjective(p) => p.write(&mut w)?,
            ClientboundPacket::UpdateScore(p) => p.write(&mut w)?,
            ClientboundPacket::Title(p) => p.write(&mut w)?,
            ClientboundPacket::StopSound(p) => p.write(&mut w)?,
        }
        Ok(w)
    }
}

/// Whether the strings of a packet are short enough to be read back.
pub open spec fn clientbound_packet_readable(p: ClientboundPacket) -> bool {
    match p {
        ClientboundPacket::StatusResponse(x) => encode_utf8(x@.0).len() <= MAX_STRING_LEN,
        ClientboundPacket::StatusPong(x) => true,
        ClientboundPacket::LoginDisconnect(x) => encode_utf8(x@.0).len() <= MAX_STRING_LEN,
        ClientboundPacket::EncryptionRequest(x) => encode_utf8(x@.0).len() <= MAX_STRING_LEN,
        ClientboundPacket::LoginSuccess(x) => encode_utf8(x@.0).len() <= MAX_STRING_LEN && encode_utf8(x@.1).len() <= MAX_STRING_LEN,
        ClientboundPacket::SetCompression(x) => true,
        ClientboundPacket::Statistics(x) => stats_readable(x@),
        ClientboundPacket::ChatMessage(x) => encode_utf8(x@.0).len() <= MAX_STRING_LEN,
        ClientboundPacket::MultiBlockChange(x) => true,
        ClientboundPacket::ClientboundTabComplete(x) => tab_matchs_readable(x@.3),
        ClientboundPacket::OpenWindow(x) => encode_utf8(x@.1).len() <= MAX_STRING_LEN && encode_utf8(x@.2).len() <= MAX_STRING_LEN,
        ClientboundPacket::PlayDisconnect(x) => encode_utf8(x@.0).len() <= MAX_STRING_LEN,
        ClientboundPacket::Explosion(x) => true,
        ClientboundPacket::KeepAlive(x) => true,
        ClientboundPacket::Particle(x) => true,
        ClientboundPacket::PlayerAbilities(x) => true,
        ClientboundPacket::CombatEvent(x) => (x@.3 is Some ==> encode_utf8(x@.3.unwrap()).len() <= MAX_STRING_LEN),
        ClientboundPacket::FacePlayer(x) => true,
        ClientboundPacket::UnlockRecipes(x) => names_readable(x@.5) && names_readable(x@.6),
        ClientboundPacket::SelectAdvancementTab(x) => true,
        ClientboundPacket::ScoreboardObjective(x) => encode_utf8(x@.0).len() <= MAX_STRING_LEN && (x@.2 is Some ==> encode_utf8(x@.2.unwrap()).len() <= MAX_STRING_LEN) && (x@.3 is Some ==> encode_utf8(x@.3.unwrap()).len() <= MAX_STRING_LEN),
        ClientboundPacket::UpdateScore(x) => encode_utf8(x@.0).len() <= MAX_STRING_LEN && encode_utf8(x@.2).len() <= MAX_STRING_LEN,
        ClientboundPacket::Title(x) => (x@.1 is Some ==> encode_utf8(x@.1.unwrap()).len() <= MAX_STRING_LEN),
        ClientboundPacket::StopSound(x) => (x@.2 is Some ==> encode_utf8(x@.2.unwrap()).len() <= MAX_STRING_LEN),
    }
}

/// Every packet decodes back from what `to_u8` writes: its identifier
/// reads back, the packet is known under its state and identifier, and its
/// fields parse to exactly its own fields, with nothing left over. So
/// `deserialize` in the packet's state returns the same variant with the same
/// fields.
pub proof fn lemma_clientbound_packet_round_trip(p: ClientboundPacket)
    requires
        clientbound_packet_fits(p),
        clientbound_packet_readable(p),
    ensures
        parse_varint(varint_bytes(clientbound_packet_key(p).1) + clientbound_packet_body_bytes(p)) == Some(
            (clientbound_packet_key(p).1, clientbound_packet_body_bytes(p)),
        ),
        clientbound_packet_known(clientbound_packet_key(p).0, clientbound_packet_key(p).1),
        clientbound_packet_body_parses(clientbound_packet_key(p).0, clientbound_packet_key(p).1, clientbound_packet_body_bytes(p)),
        clientbound_packet_parsed_from(p, clientbound_packet_body_bytes(p)),
{
    crate::wire::lemma_varint_round_trip(clientbound_packet_key(p).1, clientbound_packet_body_bytes(p));
    let e = Seq::<u8>::empty();
    match p {
        ClientboundPacket::StatusResponse(x) => {
            lemma_status_response_round_trip(x@, e);
            assert(status_response_bytes(x@) + e =~= status_response_bytes(x@));
        },
        ClientboundPacket::StatusPong(x) => {
            lemma_status_pong_round_trip(x@, e);
            assert(status_pong_bytes(x@) + e =~= status_pong_bytes(x@));
        },
        ClientboundPacket::LoginDisconnect(x) => {
            lemma_login_disconnect_round_trip(x@, e);
            assert(login_disconnect_bytes(x@) + e =~= login_disconnect_bytes(x@));
        },
        ClientboundPacket::EncryptionRequest(x) => {
            lemma_encryption_request_round_trip(x@, e);
            assert(encryption_request_bytes(x@) + e =~= encryption_request_bytes(x@));
        },
        ClientboundPacket::LoginSuccess(x) => {
            lemma_login_success_round_trip(x@, e);
            assert(login_success_bytes(x@) + e =~= login_success_bytes(x@));
        },
        ClientboundPacket::SetCompression(x) => {
            lemma_set_compression_round_trip(x@, e);
            assert(set_compression_bytes(x@) + e =~= set_compression_bytes(x@));
        },
        ClientboundPacket::Statistics(x) => {
            lemma_statistics_round_trip(x@, e);
            assert(statistics_bytes(x@) + e =~= statistics_bytes(x@));
        },
        ClientboundPacket::ChatMessage(x) => {
            lemma_chat_message_round_trip(x@, e);
            assert(chat_message_bytes(x@) + e =~= chat_message_bytes(x@));
        },
        ClientboundPacket::MultiBlockChange(x) => {
            lemma_multi_block_change_round_trip(x@, e);
            assert(multi_block_change_bytes(x@) + e =~= multi_block_change_bytes(x@));
        },
        ClientboundPacket::ClientboundTabComplete(x) => {
            lemma_clientbound_tab_complete_round_trip(x@, e);
            assert(clientbound_tab_complete_bytes(x@) + e =~= clientbound_tab_complete_bytes(x@));
        },
        ClientboundPacket::OpenWindow(x) => {
            lemma_open_window_round_trip(x@, e);
            assert(open_window_bytes(x@) + e =~= open_window_bytes(x@));
        },
        ClientboundPacket::PlayDisconnect(x) => {
            lemma_play_disconnect_round_trip(x@, e);
            assert(play_disconnect_bytes(x@) + e =~= play_disconnect_bytes(x@));
        },
        ClientboundPacket::Explosion(x) => {
            lemma_explosion_round_trip(x@, e);
            assert(explosion_bytes(x@) + e =~= explosion_bytes(x@));
        },
        ClientboundPacket::KeepAlive(x) => {
            lemma_keep_alive_round_trip(x@, e);
            assert(keep_alive_bytes(x@) + e =~= keep_alive_bytes(x@));
        },
        ClientboundPacket::Particle(x) => {
            lemma_particle_round_trip(x@);
            assert(particle_bytes(x@) + e =~= particle_bytes(x@));
        },
        ClientboundPacket::PlayerAbilities(x) => {
            lemma_player_abilities_round_trip(x@, e);
            assert(player_abilities_bytes(x@) + e =~= player_abilities_bytes(x@));
        },
        ClientboundPacket::CombatEvent(x) => {
            lemma_combat_event_round_trip(x@, e);
            assert(combat_event_bytes(x@) + e =~= combat_event_bytes(x@));
        },
        ClientboundPacket::FacePlayer(x) => {
            lemma_face_player_round_trip(x@, e);
            assert(face_player_bytes(x@) + e =~= face_player_bytes(x@));
        },
        ClientboundPacket::UnlockRecipes(x) => {
            lemma_unlock_recipes_round_trip(x@, e);
            assert(unlock_recipes_bytes(x@) + e =~= unlock_recipes_bytes(x@));
        },
        ClientboundPacket::SelectAdvancementTab(x) => {
            lemma_select_advancement_tab_round_trip(x@, e);
            assert(select_advancement_tab_bytes(x@) + e =~= select_advancement_tab_bytes(x@));
        },
        ClientboundPacket::ScoreboardObjective(x) => {
            lemma_scoreboard_objective_round_trip(x@, e);
            assert(scoreboard_objective_bytes(x@) + e =~= scoreboard_objective_bytes(x@));
        },
        ClientboundPacket::UpdateScore(x) => {
            lemma_update_score_round_trip(x@, e);
            assert(update_score_bytes(x@) + e =~= update_score_bytes(x@));
        },
        ClientboundPacket::Title(x) => {
            lemma_title_round_trip(x@, e);
            assert(title_bytes(x@) + e =~= title_bytes(x@));
        },
        ClientboundPacket::StopSound(x) => {
            lemma_stop_sound_round_trip(x@, e);
            assert(stop_sound_bytes(x@) + e =~= stop_sound_bytes(x@));
        },
    }
}

} // verus!
