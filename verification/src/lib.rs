pub mod board;
pub mod body_json;
pub mod error;
pub mod game_manager;
pub mod handlers;
pub mod packet_reader;
pub mod tcp_protocol;
pub mod text;

use vstd::prelude::*;

verus! {

/// What the server needs from its environment-sourced configuration: the
/// address it listens on.
pub struct ServerConfig {
    pub server_addr: String,
}

} // verus!
