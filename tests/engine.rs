use ozelot::client::{login_deadline, login_step, Client, LoginAction, LoginPhase};
use ozelot::clientbound::{
    ChatMessage, ClientboundPacket, EncryptionRequest, KeepAlive, LoginDisconnect, LoginSuccess,
    PlayerAbilities, SetCompression, StopSound, Title,
};
use ozelot::connection::Connection;
use ozelot::error::ProtoError;
use ozelot::frame::{frame_packet, unwrap_frame};
use ozelot::serverbound::{self, ServerboundPacket};
use ozelot::server::Server;
use ozelot::yggdrasil::{create_shared_secret, rsa_encrypt, sha1};
use ozelot::ClientState;

fn client_to_server(c: &mut Client, s: &mut Server) {
    let out = c.conn().pending_output();
    c.conn_mut().mark_written(out.len());
    s.conn_mut().ingest(&out).unwrap();
}

fn server_to_client(s: &mut Server, c: &mut Client) {
    let out = s.conn().pending_output();
    s.conn_mut().mark_written(out.len());
    c.conn_mut().ingest(&out).unwrap();
}

fn offline_login(c: &mut Client, s: &mut Server) {
    c.set_auto_handle(true);
    c.set_hide_handled(true);
    c.start_login("localhost", 25565, "Alice").unwrap();
    client_to_server(c, s);
    match s.read_packet(false).unwrap() {
        Some(ServerboundPacket::Handshake(h)) => {
            assert_eq!(h.protocol_version, 316);
            assert_eq!(h.server_address, "localhost");
            assert_eq!(h.server_port, 25565);
            assert_eq!(h.next_state, 2);
            assert_eq!(h.get_next_clientstate(), Some(ClientState::Login));
        },
        other => panic!("expected a handshake, got {:?}", other),
    }
    s.conn_mut().set_clientstate(ClientState::Login);
    match s.read_packet(false).unwrap() {
        Some(ServerboundPacket::LoginStart(l)) => assert_eq!(l.name, "Alice"),
        other => panic!("expected a login start, got {:?}", other),
    }
}

fn finish_offline_login(c: &mut Client, s: &mut Server) {
    s.send(&ClientboundPacket::LoginSuccess(LoginSuccess {
        uuid: "00000000000000000000000000000000".to_string(),
        username: "Alice".to_string(),
    }))
    .unwrap();
    s.conn_mut().set_clientstate(ClientState::Play);
    s.send(&ClientboundPacket::PlayerAbilities(PlayerAbilities {
        flags: 0x04,
        flying_speed: 0.05f32.to_bits(),
        field_of_view: 0.1f32.to_bits(),
    }))
    .unwrap();
    server_to_client(s, c);
    let mut phase = LoginPhase::Offline;
    while let Some(p) = c.read_packet(false).unwrap() {
        let (next, action) = login_step(phase, &p);
        phase = next;
        if let LoginAction::Fail(e) = action {
            panic!("login failed: {:?}", e);
        }
    }
    assert_eq!(phase, LoginPhase::Ready);
    assert_eq!(c.conn().clientstate(), ClientState::Play);
}

#[test]
fn offline_handshake() {
    let mut c = Client::new();
    let mut s = Server::new();
    offline_login(&mut c, &mut s);
    finish_offline_login(&mut c, &mut s);
}

#[test]
fn compression_enable() {
    let mut c = Client::new();
    let mut s = Server::new();
    offline_login(&mut c, &mut s);
    s.send(&ClientboundPacket::SetCompression(SetCompression { threshold: 256 })).unwrap();
    s.conn_mut().enable_compression(256).unwrap();
    finish_offline_login(&mut c, &mut s);
    assert_eq!(c.conn().compression_threshold(), Some(256));
    let text = "x".repeat(500);
    s.send(&ClientboundPacket::ChatMessage(ChatMessage { chat: text.clone(), position: 0 })).unwrap();
    server_to_client(&mut s, &mut c);
    let got = c.read(false).unwrap();
    assert_eq!(got.len(), 1);
    match &got[0] {
        ClientboundPacket::ChatMessage(m) => assert_eq!(m.chat, text),
        other => panic!("expected a chat message, got {:?}", other),
    }
}

#[test]
fn online_handshake() {
    let key = openssl::rsa::Rsa::generate(1024).unwrap();
    let der = key.public_key_to_der().unwrap();
    let mut c = Client::new();
    let mut s = Server::new();
    c.set_auto_handle(true);
    c.set_hide_handled(true);
    c.start_login("localhost", 25565, "Alice").unwrap();
    client_to_server(&mut c, &mut s);
    assert!(s.read_packet(false).unwrap().is_some());
    s.conn_mut().set_clientstate(ClientState::Login);
    assert!(s.read_packet(false).unwrap().is_some());
    s.send(&ClientboundPacket::EncryptionRequest(EncryptionRequest {
        server_id: String::new(),
        public_key: der.clone(),
        verify_token: vec![0xAA, 0xBB, 0xCC, 0xDD],
    }))
    .unwrap();
    server_to_client(&mut s, &mut c);
    let p = c.read_packet(false).unwrap().unwrap();
    let (phase, action) = login_step(LoginPhase::ExpectingEncryptionRequest, &p);
    assert_eq!(phase, LoginPhase::ExpectingPlayerAbilities);
    let request = match action {
        LoginAction::AnswerEncryption(r) => r,
        _ => panic!("expected an encryption request"),
    };
    let secret = create_shared_secret().unwrap();
    c.complete_encryption(&request, &secret).unwrap();
    assert!(c.conn().is_encrypted());
    client_to_server(&mut c, &mut s);
    let response = match s.read_packet(false).unwrap() {
        Some(ServerboundPacket::EncryptionResponse(r)) => r,
        other => panic!("expected an encryption response, got {:?}", other),
    };
    assert_eq!(response.shared_secret.len(), 128);
    assert_eq!(response.verify_token.len(), 128);
    let mut plain = vec![0u8; 128];
    let n = key.private_decrypt(&response.shared_secret, &mut plain, openssl::rsa::Padding::PKCS1).unwrap();
    assert_eq!(&plain[..n], &secret[..]);
    let n = key.private_decrypt(&response.verify_token, &mut plain, openssl::rsa::Padding::PKCS1).unwrap();
    assert_eq!(&plain[..n], &[0xAA, 0xBB, 0xCC, 0xDD]);
    let der = key.private_key_to_der().unwrap();
    assert_eq!(response.get_decrypted_shared_secret(&der).unwrap(), secret);
    assert_eq!(response.get_decrypted_verify_token(&der).unwrap(), vec![0xAA, 0xBB, 0xCC, 0xDD]);
    assert!(response.get_decrypted_shared_secret(&[1, 2, 3]).is_err());
    s.conn_mut().enable_encryption(&secret).unwrap();
    // From here every byte is enciphered.
    s.send(&ClientboundPacket::LoginSuccess(LoginSuccess {
        uuid: "00000000-0000-0000-0000-000000000000".to_string(),
        username: "Alice".to_string(),
    }))
    .unwrap();
    let wire = s.conn().pending_output();
    let framed = frame_packet(&ClientboundPacket::LoginSuccess(LoginSuccess {
        uuid: "00000000-0000-0000-0000-000000000000".to_string(),
        username: "Alice".to_string(),
    })
    .to_u8()
    .unwrap(), None)
    .unwrap();
    assert_eq!(wire.len(), framed.len());
    assert_ne!(wire, framed);
    server_to_client(&mut s, &mut c);
    match c.read_packet(false).unwrap() {
        Some(ClientboundPacket::LoginSuccess(l)) => assert_eq!(l.username, "Alice"),
        other => panic!("expected a login success, got {:?}", other),
    }
    assert_eq!(c.conn().clientstate(), ClientState::Play);
}

#[test]
fn keepalive_echo() {
    let mut c = Client::new();
    let mut s = Server::new();
    offline_login(&mut c, &mut s);
    finish_offline_login(&mut c, &mut s);
    s.send(&ClientboundPacket::KeepAlive(KeepAlive { id: 0xDEADBEEF })).unwrap();
    server_to_client(&mut s, &mut c);
    let got = c.read(false).unwrap();
    assert!(got.is_empty());
    s.conn_mut().set_clientstate(ClientState::Play);
    client_to_server(&mut c, &mut s);
    match s.read_packet(false).unwrap() {
        Some(ServerboundPacket::KeepAlive(k)) => assert_eq!(k.id, 0xDEADBEEF),
        other => panic!("expected a keep-alive, got {:?}", other),
    }
}

#[test]
fn keepalive_shown_without_hiding() {
    let mut c = Client::new();
    c.set_auto_handle(true);
    c.set_clientstate(ClientState::Play);
    let mut s = Server::new();
    s.conn_mut().set_clientstate(ClientState::Play);
    s.send(&ClientboundPacket::KeepAlive(KeepAlive { id: 7 })).unwrap();
    server_to_client(&mut s, &mut c);
    let got = c.read(false).unwrap();
    assert_eq!(got.len(), 1);
    assert!(!c.conn().pending_output().is_empty());
}

#[test]
fn fragmented_frame() {
    let mut s = Server::new();
    s.conn_mut().set_clientstate(ClientState::Play);
    let text = "y".repeat(994);
    s.send(&ClientboundPacket::ChatMessage(ChatMessage { chat: text.clone(), position: 1 })).unwrap();
    let wire = s.conn().pending_output();
    assert_eq!(wire.len(), 1000);
    let mut c = Client::new();
    c.set_clientstate(ClientState::Play);
    let mut nones = 0;
    let mut got = None;
    for chunk in wire.chunks(50) {
        c.conn_mut().ingest(chunk).unwrap();
        match c.read_packet(false).unwrap() {
            None => nones += 1,
            Some(p) => got = Some(p),
        }
    }
    assert_eq!(nones, 19);
    match got {
        Some(ClientboundPacket::ChatMessage(m)) => {
            assert_eq!(m.chat, text);
            assert_eq!(m.position, 1);
        },
        other => panic!("expected a chat message, got {:?}", other),
    }
}

#[test]
fn byte_at_a_time_matches_all_at_once() {
    let mut s = Server::new();
    s.conn_mut().set_clientstate(ClientState::Play);
    for i in 0..5 {
        s.send(&ClientboundPacket::KeepAlive(KeepAlive { id: i })).unwrap();
    }
    let wire = s.conn().pending_output();
    let mut whole = Client::new();
    whole.set_clientstate(ClientState::Play);
    whole.conn_mut().ingest(&wire).unwrap();
    let all = whole.read(false).unwrap();
    let mut single = Client::new();
    single.set_clientstate(ClientState::Play);
    let mut ids = Vec::new();
    for b in &wire {
        single.conn_mut().ingest(&[*b]).unwrap();
        for p in single.read(false).unwrap() {
            if let ClientboundPacket::KeepAlive(k) = p {
                ids.push(k.id);
            }
        }
    }
    let all_ids: Vec<i64> = all
        .iter()
        .map(|p| match p {
            ClientboundPacket::KeepAlive(k) => k.id,
            _ => -1,
        })
        .collect();
    assert_eq!(ids, vec![0, 1, 2, 3, 4]);
    assert_eq!(all_ids, ids);
}

#[test]
fn malformed_varint() {
    let mut c = Client::new();
    c.set_clientstate(ClientState::Login);
    c.conn_mut().ingest(&[0xFF; 6]).unwrap();
    match c.read_packet(false) {
        Err(ProtoError::Malformed) => {},
        other => panic!("expected Malformed, got {:?}", other),
    }
    assert_eq!(c.conn().clientstate(), ClientState::Login);
}

#[test]
fn idle_timeout() {
    let mut c = Client::new();
    c.conn_mut().ingest(&[5, 0]).unwrap();
    assert!(c.read_packet(false).unwrap().is_none());
    match c.read_packet(true) {
        Err(ProtoError::Timeout) => {},
        other => panic!("expected Timeout, got {:?}", other),
    }
    assert!(c.conn().closed());
    match c.read_packet(false) {
        Err(ProtoError::Closed) => {},
        other => panic!("expected Closed, got {:?}", other),
    }
}

#[test]
fn unknown_packet() {
    let mut c = Client::new();
    c.set_clientstate(ClientState::Login);
    c.conn_mut().ingest(&[1, 0x7f]).unwrap();
    match c.read_packet(false) {
        Err(ProtoError::UnknownPacket { state, id, .. }) => {
            assert_eq!(state, ClientState::Login);
            assert_eq!(id, 0x7f);
        },
        other => panic!("expected UnknownPacket, got {:?}", other),
    }
}

#[test]
fn inconsistent_packet_is_refused() {
    let mut s = Server::new();
    s.conn_mut().set_clientstate(ClientState::Play);
    let bad = ClientboundPacket::StopSound(StopSound { flags: 1, source: None, sound: None });
    match s.send(&bad) {
        Err(ProtoError::InvalidOutbound { .. }) => {},
        other => panic!("expected InvalidOutbound, got {:?}", other),
    }
    assert!(s.conn().pending_output().is_empty());
    let bad = ClientboundPacket::Title(Title { action: 3, text: None, times: None });
    assert!(s.send(&bad).is_err());
}

#[test]
fn toggles_are_one_shot() {
    let mut conn = Connection::new();
    conn.enable_compression(10).unwrap();
    match conn.enable_compression(20) {
        Err(ProtoError::ProtocolViolation { .. }) => {},
        other => panic!("expected ProtocolViolation, got {:?}", other),
    }
    assert_eq!(conn.compression_threshold(), Some(10));
    conn.enable_encryption(&[7; 16]).unwrap();
    assert!(conn.enable_encryption(&[7; 16]).is_err());
}

#[test]
fn login_disconnect_fails_with_reason() {
    let p = ClientboundPacket::LoginDisconnect(LoginDisconnect { raw_chat: "{\"text\":\"bye\"}".to_string() });
    match login_step(LoginPhase::Offline, &p) {
        (_, LoginAction::Fail(ProtoError::ProtocolViolation { reason })) => {
            assert_eq!(reason, "{\"text\":\"bye\"}")
        },
        _ => panic!("expected a failure"),
    }
    let req = ClientboundPacket::EncryptionRequest(EncryptionRequest {
        server_id: String::new(),
        public_key: vec![],
        verify_token: vec![],
    });
    assert!(matches!(login_step(LoginPhase::Offline, &req).1, LoginAction::Fail(_)));
    let ok = ClientboundPacket::LoginSuccess(LoginSuccess { uuid: String::new(), username: String::new() });
    assert!(matches!(login_step(LoginPhase::ExpectingEncryptionRequest, &ok).1, LoginAction::Fail(_)));
}

#[test]
fn bad_public_key_is_a_crypto_error() {
    match rsa_encrypt(&[1, 2, 3], &[4, 5, 6]) {
        Err(ProtoError::CryptoError) => {},
        other => panic!("expected CryptoError, got {:?}", other),
    }
    assert!(serverbound::EncryptionResponse::new_unencrypted(&[0], &[1], &[2]).is_err());
}

#[test]
fn shared_secrets_differ() {
    let a = create_shared_secret().unwrap();
    let b = create_shared_secret().unwrap();
    assert_ne!(a, b);
}

#[test]
fn session_hash_vectors() {
    assert_eq!(sha1("Notch", &[], &[]), "4ed1f46bbe04bc756bcb17c0c7ce3e4632f06a48");
    assert_eq!(sha1("jeb_", &[], &[]), "-7c9d5b0044c130109a5d7b5fb5c317c02b4e28c1");
    assert_eq!(sha1("simon", &[], &[]), "88e16a1019277b15d58faf0541e11910eb756f6");
    // The digest of no input has its top bit set, so it reads as negative.
    assert_eq!(sha1("", &[], &[]), "-25c65c11a194b4f2cdaa40106a9fe76f5027f8f7");
    // The three parts are hashed one after the other.
    assert_eq!(sha1("No", b"tc", b"h"), sha1("Notch", &[], &[]));
}

#[test]
fn small_body_is_framed_uncompressed() {
    let body = vec![1u8, 2, 3];
    assert_eq!(frame_packet(&body, Some(256)).unwrap(), vec![4, 0, 1, 2, 3]);
    assert_eq!(frame_packet(&body, None).unwrap(), vec![3, 1, 2, 3]);
}

#[test]
fn large_body_is_compressed() {
    let body = vec![9u8; 300];
    let framed = frame_packet(&body, Some(256)).unwrap();
    assert!(framed.len() < 300);
    let mut rd = ozelot::reader::Reader::from_slice(&framed);
    let outer = ozelot::read::read_varint(&mut rd).unwrap() as usize;
    let inner = rd.take_rest();
    assert_eq!(inner.len(), outer);
    let mut rd = ozelot::reader::Reader::from_slice(&inner);
    assert_eq!(ozelot::read::read_varint(&mut rd).unwrap(), 300);
    assert_eq!(unwrap_frame(inner, true).unwrap(), body);
}

#[test]
fn bad_utf8_is_malformed() {
    let mut rd = ozelot::reader::Reader::from_slice(&[2, 0xff, 0xfe]);
    assert!(ozelot::read::read_String(&mut rd).is_err());
    let mut rd = ozelot::reader::Reader::from_slice(&[0x81, 0x80, 0x02]);
    assert!(ozelot::read::read_String(&mut rd).is_err());
}

#[test]
fn bad_compressed_payload_is_malformed() {
    // Uncompressed length 5, then bytes that are no zlib stream.
    assert!(unwrap_frame(vec![5, 1, 2, 3], true).is_err());
    // A valid stream whose length differs from the stated one.
    let framed = frame_packet(&vec![7u8; 40], Some(16)).unwrap();
    let mut inner = framed[1..].to_vec();
    inner[0] = 41;
    assert!(unwrap_frame(inner, true).is_err());
}

#[test]
fn login_deadline_fails_late_logins() {
    assert!(login_deadline(LoginPhase::Offline, 30_000).is_none());
    assert!(matches!(login_deadline(LoginPhase::Offline, 30_001), Some(LoginAction::Fail(ProtoError::Timeout))));
    assert!(login_deadline(LoginPhase::Ready, 60_000).is_none());
}

#[test]
fn long_varlong_rejected() {
    let mut bytes = vec![0x80u8; 9];
    bytes.push(0x02);
    let mut rd = ozelot::reader::Reader::new(bytes);
    assert!(ozelot::read::read_varlong(&mut rd).is_err());
}

#[test]
fn empty_body_is_never_compressed() {
    assert_eq!(frame_packet(&[], Some(0)).unwrap(), vec![1, 0]);
}
