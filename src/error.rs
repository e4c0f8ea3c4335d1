//! The error kinds of the engine.
use vstd::prelude::*;

use crate::ClientState;
use vstd::string::StringExecFns;

verus! {

/// Which way a packet travels.
#[derive(Clone, Copy, Debug, PartialEq, Eq, Structural)]
pub enum Direction {
    Clientbound,
    Serverbound,
}

/// Why an operation failed. Every kind but `InvalidOutbound` is fatal for the
/// connection.
#[derive(Clone, Debug)]
pub enum ProtoError {
    /// The underlying stream failed.
    Io,
    /// Nothing was received for too long while a packet was awaited.
    Timeout,
    /// The bytes on the wire do not decode.
    Malformed,
    /// No decoder exists for this identifier in this direction and state.
    UnknownPacket { direction: Direction, state: ClientState, id: i32 },
    /// The peer did something the protocol forbids at this point.
    ProtocolViolation { reason: String },
    /// A cipher or key operation failed.
    CryptoError,
    /// A packet value is not internally consistent; nothing was written.
    InvalidOutbound { reason: String },
    /// The connection was closed.
    Closed,
}

/// A reason text for an error.
pub fn reason(s: &str) -> (r: String)
    ensures
        r@ == s@,
{
    String::from_str(s)
}

/// The outcome `r` of a read agrees with the parse `p` of the bytes that were
/// available, and `after` is what remains once the value is taken.
pub open spec fn reads_as<T>(r: Result<T, ProtoError>, p: Option<(T, Seq<u8>)>, after: Seq<u8>) -> bool {
    match r {
        Ok(v) => p == Some((v, after)),
        Err(e) => p is None && e is Malformed,
    }
}

/// The outcome `r` of a read agrees with the parse `p` of the bytes that were
/// available, where a value is compared through its view.
pub open spec fn reads_as_view<T: View>(
    r: Result<T, ProtoError>,
    p: Option<(T::V, Seq<u8>)>,
    after: Seq<u8>,
) -> bool {
    match r {
        Ok(v) => p == Some((v@, after)),
        Err(e) => p is None && e is Malformed,
    }
}

} // verus!
