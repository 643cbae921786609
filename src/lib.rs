//! Protocol engine of a small Minecraft Java Edition server front-end:
//! variable-width integers, field codecs, the length/compression framing,
//! identifiers and rich text, registries, the packet catalogue and the
//! per-connection state machine.

pub mod error;
pub mod varint;
pub mod codec;
pub mod frame;
pub mod text;
pub mod identifier;
pub mod registry;
pub mod packets;
pub mod status;
pub mod connection;
pub mod server;
pub mod nbt;
pub mod world;
pub mod player;
