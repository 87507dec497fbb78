//! The wire framing and its limits: a four-byte big-endian length prefix, a
//! sixteen-mebibyte cap enforced on both sides, and the peer-credential rule.

use vstd::prelude::*;

use crate::roles::{socket_name_of, AgentId};
use crate::text::{chars_to_string, str_to_chars};

verus! {

/// Largest payload either side accepts, in bytes.
pub const MAX_MESSAGE_SIZE: usize = 16 * 1024 * 1024;

/// What can go wrong at the transport and worker layer.
#[derive(Debug, Clone, Copy, PartialEq, Eq, Structural)]
pub enum TransportError {
    /// The listener could not bind its socket; fatal to the worker.
    BindFailed,
    /// A client connection could not be opened; the message is dropped.
    ConnectFailed,
    /// The peer's user id differs from ours; the connection is closed.
    AuthFailed,
    /// The stream ended in the middle of a frame.
    Truncated,
    /// The payload is not the canonical text of a message.
    MalformedJson,
    /// A payload or declared length exceeds the cap.
    MessageTooLarge,
    /// The backend child process could not be started.
    BackendSpawnFailed,
}

impl TransportError {
    /// A short name for logs and messages.
    pub fn as_str(&self) -> (r: &'static str)
        ensures
            r@ == error_name(*self),
    {
        match self {
            TransportError::BindFailed => "bind failed",
            TransportError::ConnectFailed => "connect failed",
            TransportError::AuthFailed => "peer uid mismatch",
            TransportError::Truncated => "truncated frame",
            TransportError::MalformedJson => "malformed message",
            TransportError::MessageTooLarge => "message too large",
            TransportError::BackendSpawnFailed => "backend spawn failed",
        }
    }
}

/// The log name of each error.
pub open spec fn error_name(e: TransportError) -> Seq<char> {
    match e {
        TransportError::BindFailed => "bind failed"@,
        TransportError::ConnectFailed => "connect failed"@,
        TransportError::AuthFailed => "peer uid mismatch"@,
        TransportError::Truncated => "truncated frame"@,
        TransportError::MalformedJson => "malformed message"@,
        TransportError::MessageTooLarge => "message too large"@,
        TransportError::BackendSpawnFailed => "backend spawn failed"@,
    }
}

/// The value of a four-byte big-endian length prefix.
pub open spec fn be32(b0: u8, b1: u8, b2: u8, b3: u8) -> nat {
    b0 as nat * 0x100_0000 + b1 as nat * 0x1_0000 + b2 as nat * 0x100 + b3 as nat
}

/// Frames a payload for the wire: the four-byte big-endian length, then the
/// payload itself. A payload over the cap is refused before anything is
/// built.
pub fn frame_message(payload: &Vec<u8>) -> (r: Result<Vec<u8>, TransportError>)
    ensures
        payload@.len() <= MAX_MESSAGE_SIZE ==> (r matches Ok(f) && f@.len() == payload@.len() + 4
            && f@.subrange(4, f@.len() as int) == payload@ && be32(f@[0], f@[1], f@[2], f@[3])
            == payload@.len()),
        payload@.len() > MAX_MESSAGE_SIZE ==> r == Err::<Vec<u8>, TransportError>(
            TransportError::MessageTooLarge,
        ),
{
    let len = payload.len();
    if len > MAX_MESSAGE_SIZE {
        return Err(TransportError::MessageTooLarge);
    }
    let b0: u8 = (len / 0x100_0000) as u8;
    let r0: usize = len % 0x100_0000;
    let b1: u8 = (r0 / 0x1_0000) as u8;
    let r1: usize = r0 % 0x1_0000;
    let b2: u8 = (r1 / 0x100) as u8;
    let b3: u8 = (r1 % 0x100) as u8;
    proof {
        assert(len == (len / 0x100_0000) * 0x100_0000 + len % 0x100_0000);
        assert(r0 == (r0 / 0x1_0000) * 0x1_0000 + r0 % 0x1_0000);
        assert(r1 == (r1 / 0x100) * 0x100 + r1 % 0x100);
        assert(len / 0x100_0000 <= 1);
    }
    let mut f: Vec<u8> = Vec::new();
    f.push(b0);
    f.push(b1);
    f.push(b2);
    f.push(b3);
    let mut body = payload.clone();
    f.append(&mut body);
    proof {
        assert(f@.subrange(4, f@.len() as int) =~= payload@);
        assert(f@[0] == b0 && f@[1] == b1 && f@[2] == b2 && f@[3] == b3);
    }
    Ok(f)
}

/// Reads the declared length out of a frame's four prefix bytes, refusing a
/// length over the cap before any buffer could be sized from it.
pub fn parse_frame_len(b0: u8, b1: u8, b2: u8, b3: u8) -> (r: Result<usize, TransportError>)
    ensures
        be32(b0, b1, b2, b3) <= MAX_MESSAGE_SIZE ==> r == Ok::<usize, TransportError>(
            be32(b0, b1, b2, b3) as usize,
        ),
        be32(b0, b1, b2, b3) > MAX_MESSAGE_SIZE ==> r == Err::<usize, TransportError>(
            TransportError::MessageTooLarge,
        ),
{
    let n: u32 = (b0 as u32) * 0x100_0000 + (b1 as u32) * 0x1_0000 + (b2 as u32) * 0x100 + (
    b3 as u32);
    let len = n as usize;
    if len > MAX_MESSAGE_SIZE {
        Err(TransportError::MessageTooLarge)
    } else {
        Ok(len)
    }
}

/// Kernel-reported identity of the process at the other end of a local
/// stream socket.
#[derive(Debug, Clone, Copy, PartialEq, Eq, Structural)]
pub struct PeerCredentials {
    pub pid: i32,
    pub uid: u32,
    pub gid: u32,
}

impl PeerCredentials {
    /// The authentication rule: a peer is accepted exactly when its user id
    /// is our own. Process and group ids are informational only.
    pub fn is_same_user(&self, own_uid: u32) -> (r: bool)
        ensures
            r == (self.uid == own_uid),
    {
        self.uid == own_uid
    }
}

/// The file name an agent's rendezvous socket carries inside the base
/// directory.
pub fn socket_file_name(id: &AgentId) -> (r: String)
    ensures
        r@ == socket_name_of(*id) + ".sock"@,
{
    let name = id.socket_name();
    let mut buf = str_to_chars(name.as_str());
    let mut part = str_to_chars(".sock");
    buf.append(&mut part);
    proof {
        assert(buf@ =~= socket_name_of(*id) + ".sock"@);
    }
    chars_to_string(&buf)
}

} // verus!
