use vstd::prelude::*;

verus! {

/// The state a connection is in; the same packet id means different
/// things in different states.
#[derive(Debug, Clone, Copy, PartialEq, Eq, Structural)]
pub enum ConnectionState {
    Handshake,
    Status,
    Login,
    Play,
}

/// Everything that can go wrong while reading, writing or handling packets.
#[derive(Debug, Clone, Copy, PartialEq, Eq, Structural)]
pub enum ProtocolError {
    /// A variable-width integer ran past its longest encoding.
    MalformedVarInt,
    /// The input ended in the middle of a value.
    UnexpectedEnd,
    /// A string, byte array or packet announced a negative length.
    StringLengthNegative,
    /// A packet or an inflated payload announced a negative length.
    NegativeLength,
    /// String bytes that are not UTF-8.
    StringNotUtf8,
    /// A length that does not fit the wire's 32-bit signed length prefix.
    LengthOverflow,
    /// A packet id that the current state does not accept.
    UnknownPacketId { state: ConnectionState, id: i32 },
    /// The handshake asked for a state other than status (1) or login (2).
    InvalidHandshakeNextState,
    /// Bytes after a legacy ping's first byte that are not a legacy ping.
    InvalidLegacyPing,
    /// An identifier with characters outside its grammar.
    InvalidIdentifier,
    /// A compressed frame that does not inflate to its announced length.
    CompressionFormatError,
    /// A kick in a state where the protocol has no disconnect packet.
    KickNotAllowedInState,
    /// A registry already holds an entry under this key.
    DuplicateRegistryKey,
    /// A hex colour that is not `#rrggbb`.
    InvalidHexColor,
}

} // verus!
