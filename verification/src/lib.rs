pub mod base64;
pub mod chance;
pub mod digest;
pub mod error;
pub mod filler;
pub mod frames;
pub mod god_set;
pub mod handshake;
pub mod http;
pub mod json;
pub mod notation;
pub mod resources;
pub mod server_state;
pub mod text;
