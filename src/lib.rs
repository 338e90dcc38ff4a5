//! Incremental decoder for a length-prefixed binary framing: each frame is a
//! two-byte big-endian payload length followed by that many payload bytes.

pub mod buffer;
pub mod parser;
pub mod stream;
pub mod wire;

pub use parser::{OreErrorInsufficient, OreProtocol, ProtocolState};
pub use stream::{OreStream, StreamItem};
