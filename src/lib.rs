//! A client/server engine for the Minecraft Modern wire protocol: primitive
//! codecs, length-prefixed framing with optional compression and encryption,
//! the packet catalog, and the login handshake state machine.
use vstd::prelude::*;

mod bindings;
pub mod client;
pub mod clientbound;
pub mod connection;
pub mod error;
pub mod frame;
mod json;
pub mod mojang;
pub mod reader;
pub mod server;
pub mod serverbound;
pub mod wire;
pub mod read;
pub mod write;
pub mod yggdrasil;

verus! {

/// The protocol version spoken by this library.
pub const PROTOCOL_VERSION: i32 = 316;

/// The phase of the protocol a connection is in; it decides how packet
/// identifiers are interpreted.
#[derive(Clone, Copy, Debug, PartialEq, Eq, Structural)]
pub enum ClientState {
    Handshake,
    Status,
    Login,
    Play,
}

impl ClientState {
    /// The state's name.
    pub fn name(&self) -> (r: &'static str)
        ensures
            *self == ClientState::Handshake ==> r@ == "Handshake"@,
            *self == ClientState::Status ==> r@ == "Status"@,
            *self == ClientState::Login ==> r@ == "Login"@,
            *self == ClientState::Play ==> r@ == "Play"@,
    {
        match self {
            ClientState::Handshake => "Handshake",
            ClientState::Status => "Status",
            ClientState::Login => "Login",
            ClientState::Play => "Play",
        }
    }
}

} // verus!
