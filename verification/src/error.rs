//! What can go wrong in a session.

use crate::auth::{AuthError, AuthErrorView};
use crate::handshake::{HandshakeError, HandshakeErrorView};
use crate::noise::{NoiseError, NoiseErrorView};
use crate::transport::{TransportError, TransportErrorView};
use vstd::prelude::*;

verus! {

/// Why a session could not be had, or ended.
#[derive(Debug)]
pub enum RuntimeError {
    /// Encryption failed.
    Noise(NoiseError),
    /// A packet could not be sealed or opened.
    Transport(TransportError),
    /// A handshake message could not be made or was refused.
    HandshakeDriver(HandshakeError),
    /// A key could not be read.
    Auth(AuthError),
    /// The server rejected the connection.
    Handshake,
    /// The host key changed; carries the host:port label.
    HostKeyMismatch(String),
    /// A malformed key file.
    BadKeyFile,
    /// The connection timed out.
    Timeout,
    /// A bad or unresolvable network address, with a complete user-facing reason.
    BadAddress(String),
    /// An SSH-bootstrap failure carrying a complete, user-facing reason.
    SshFailed(String),
    /// A command-line usage error with a complete, user-facing message.
    Usage(String),
    /// A file transfer failed.
    Transfer(String),
    /// A remote command failed.
    Exec(String),
    /// The system gives no random bytes.
    NoRandomness,
}

/// What an error says.
pub enum RuntimeErrorView {
    Noise(NoiseErrorView),
    Transport(TransportErrorView),
    HandshakeDriver(HandshakeErrorView),
    Auth(AuthErrorView),
    Handshake,
    HostKeyMismatch(Seq<char>),
    BadKeyFile,
    Timeout,
    BadAddress(Seq<char>),
    SshFailed(Seq<char>),
    Usage(Seq<char>),
    Transfer(Seq<char>),
    Exec(Seq<char>),
    NoRandomness,
}

impl View for RuntimeError {
    type V = RuntimeErrorView;

    open spec fn view(&self) -> RuntimeErrorView {
        match *self {
            RuntimeError::Noise(e) => RuntimeErrorView::Noise(e@),
            RuntimeError::Transport(e) => RuntimeErrorView::Transport(e@),
            RuntimeError::HandshakeDriver(e) => RuntimeErrorView::HandshakeDriver(e@),
            RuntimeError::Auth(e) => RuntimeErrorView::Auth(e@),
            RuntimeError::Handshake => RuntimeErrorView::Handshake,
            RuntimeError::HostKeyMismatch(s) => RuntimeErrorView::HostKeyMismatch(s@),
            RuntimeError::BadKeyFile => RuntimeErrorView::BadKeyFile,
            RuntimeError::Timeout => RuntimeErrorView::Timeout,
            RuntimeError::BadAddress(s) => RuntimeErrorView::BadAddress(s@),
            RuntimeError::SshFailed(s) => RuntimeErrorView::SshFailed(s@),
            RuntimeError::Usage(s) => RuntimeErrorView::Usage(s@),
            RuntimeError::Transfer(s) => RuntimeErrorView::Transfer(s@),
            RuntimeError::Exec(s) => RuntimeErrorView::Exec(s@),
            RuntimeError::NoRandomness => RuntimeErrorView::NoRandomness,
        }
    }
}

} // verus!
