//! Remote shell over an encrypted, roaming datagram transport.
pub mod address;
pub mod args;
pub mod auth;
pub mod cell;
pub mod client;
pub mod command_laws;
pub mod config;
pub mod connect;
pub mod control;
pub mod daemon;
pub mod diff;
pub mod error;
pub mod exec;
pub mod flags;
pub mod format_laws;
pub mod forward;
pub mod grid;
pub mod handshake;
pub mod input;
pub mod login;
pub mod mux_laws;
pub mod noise;
pub mod order;
pub mod paint_laws;
pub mod predict;
pub mod proto;
pub mod reassembler;
pub mod replay;
pub mod requests;
pub mod screen_laws;
pub mod server;
pub mod server_session;
pub mod session_laws;
pub mod shell;
pub mod socks;
pub mod ssh;
pub mod sshconfig;
pub mod status;
pub mod stream;
pub mod stream_laws;
pub mod terminal;
pub mod text;
pub mod transfer;
pub mod transport;
pub mod tty;
pub mod wire;
pub mod xfer;
