use vstd::prelude::*;

use crate::codec::{
    be_bytes, packed_block_pos, write_block_pos, write_i32, write_u8, BlockPos, push_all, fits_string_field, i64_of_bits, parse_be, parse_byte_array, parse_string,
    parse_uuid, string_bytes, uuid_bytes, write_bool, write_i64, write_str, write_uuid,
    PacketReader, Uuid,
};
use crate::error::ProtocolError;
use crate::identifier::{identifier_chars, Identifier};
use crate::varint::{var_bytes, var_decode, write_var, VarInt};

verus! {

/// The protocol number of the layout in which a login start may carry a
/// signature block.
pub const PROTOCOL_WITH_SIGNATURE: i32 = 760;

/// `bs` after its first `n` bytes.
pub open spec fn after(bs: Seq<u8>, n: nat) -> Seq<u8> {
    bs.subrange(n as int, bs.len() as int)
}

/// The state that a handshake asks for.
#[derive(Debug, Clone, Copy, PartialEq, Eq, Structural)]
pub enum NextState {
    Status,
    Login,
}

/// `1` asks for status, `2` for login; nothing else is valid.
pub open spec fn next_state_of(v: i32) -> Option<NextState> {
    if v == 1 {
        Some(NextState::Status)
    } else if v == 2 {
        Some(NextState::Login)
    } else {
        None
    }
}

impl NextState {
    pub fn from_i32(v: i32) -> (r: Result<NextState, ProtocolError>)
        ensures
            match r {
                Ok(s) => next_state_of(v) == Some(s),
                Err(e) => next_state_of(v) is None && e == ProtocolError::InvalidHandshakeNextState,
            },
    {
        if v == 1 {
            Ok(NextState::Status)
        } else if v == 2 {
            Ok(NextState::Login)
        } else {
            Err(ProtocolError::InvalidHandshakeNextState)
        }
    }
}

/// The first packet of every modern connection.
pub struct Handshake {
    pub version: i32,
    pub server_addr: String,
    pub server_port: u16,
    pub next_state: NextState,
}

pub struct HandshakeView {
    pub version: i32,
    pub server_addr: Seq<char>,
    pub server_port: u16,
    pub next_state: NextState,
}

impl View for Handshake {
    type V = HandshakeView;

    open spec fn view(&self) -> HandshakeView {
        HandshakeView {
            version: self.version,
            server_addr: self.server_addr@,
            server_port: self.server_port,
            next_state: self.next_state,
        }
    }
}

/// A handshake body: protocol number, server address, port, next state.
pub open spec fn parse_handshake(bs: Seq<u8>) -> Result<HandshakeView, ProtocolError> {
    match var_decode::<i32>(bs) {
        Err(e) => Err(e),
        Ok((version, n1)) => {
            let b1 = after(bs, n1);
            match parse_string(b1) {
                Err(e) => Err(e),
                Ok((addr, n2)) => {
                    let b2 = after(b1, n2);
                    match parse_be(b2, 2) {
                        Err(e) => Err(e),
                        Ok((port, n3)) => {
                            let b3 = after(b2, n3);
                            match var_decode::<i32>(b3) {
                                Err(e) => Err(e),
                                Ok((next, n4)) => match next_state_of(next) {
                                    None => Err(ProtocolError::InvalidHandshakeNextState),
                                    Some(ns) => Ok(
                                        HandshakeView {
                                            version,
                                            server_addr: addr,
                                            server_port: port as u16,
                                            next_state: ns,
                                        },
                                    ),
                                },
                            }
                        },
                    }
                },
            }
        },
    }
}

impl Handshake {
    pub fn read(buf: &mut PacketReader) -> (r: Result<Handshake, ProtocolError>)
        ensures
            match r {
                Ok(h) => parse_handshake(old(buf)@) == Ok::<HandshakeView, ProtocolError>(h@),
                Err(e) => parse_handshake(old(buf)@) == Err::<HandshakeView, ProtocolError>(e),
            },
    {
        let version = buf.read_var::<i32>()?;
        let server_addr = buf.read_string()?;
        let server_port = buf.read_u16()?;
        let next = buf.read_var::<i32>()?;
        let next_state = NextState::from_i32(next)?;
        Ok(Handshake { version, server_addr, server_port, next_state })
    }
}

/// A ping's payload: one big-endian 64-bit integer.
pub open spec fn parse_ping(bs: Seq<u8>) -> Result<i64, ProtocolError> {
    match parse_be(bs, 8) {
        Err(e) => Err(e),
        Ok((u, _)) => Ok(i64_of_bits(u)),
    }
}

/// The legacy 1.6 ping: after the `0xFE`, the bytes `0x01 0xFA`.
pub struct LegacyPingRequest;

impl LegacyPingRequest {
    /// Reads the two bytes that follow the `0xFE`; anything but `0x01FA`
    /// is not a legacy ping.
    pub fn read(buf: &mut PacketReader) -> (r: Result<LegacyPingRequest, ProtocolError>)
        ensures
            match r {
                Ok(_) => parse_be(old(buf)@, 2) == Ok::<(nat, nat), ProtocolError>((0x01FA, 2)),
                Err(e) => match parse_be(old(buf)@, 2) {
                    Ok((v, _)) => v != 0x01FA && e == ProtocolError::InvalidLegacyPing,
                    Err(e2) => e == e2,
                },
            },
    {
        let next_two_bytes = buf.read_u16()?;
        if next_two_bytes != 0x01fa {
            return Err(ProtocolError::InvalidLegacyPing);
        }
        Ok(LegacyPingRequest)
    }
}

/// Asks for the server listing; it has no fields.
pub struct StatusRequest;

/// Asks for its payload back.
pub struct PingRequest(pub i64);

impl PingRequest {
    pub fn read(buf: &mut PacketReader) -> (r: Result<PingRequest, ProtocolError>)
        ensures
            match r {
                Ok(p) => parse_ping(old(buf)@) == Ok::<i64, ProtocolError>(p.0),
                Err(e) => parse_ping(old(buf)@) == Err::<i64, ProtocolError>(e),
            },
    {
        let payload = buf.read_i64()?;
        Ok(PingRequest(payload))
    }
}

/// The optional signature block of the older login layout; it is read and
/// then dropped.
pub struct Signature {
    pub expiration_time: i64,
    pub public_key: Vec<u8>,
    pub signature: Vec<u8>,
}

/// A signature block: expiry (big-endian 64-bit), public key, signature;
/// its values and the count of bytes it takes.
pub open spec fn parse_signature(bs: Seq<u8>) -> Result<(i64, Seq<u8>, Seq<u8>, nat), ProtocolError> {
    match parse_be(bs, 8) {
        Err(e) => Err(e),
        Ok((u, n1)) => {
            let b1 = after(bs, n1);
            match parse_byte_array(b1) {
                Err(e) => Err(e),
                Ok((key, n2)) => {
                    let b2 = after(b1, n2);
                    match parse_byte_array(b2) {
                        Err(e) => Err(e),
                        Ok((sig, n3)) => Ok((i64_of_bits(u), key, sig, n1 + n2 + n3)),
                    }
                },
            }
        },
    }
}

impl Signature {
    pub fn read(buf: &mut PacketReader) -> (r: Result<Signature, ProtocolError>)
        ensures
            match r {
                Ok(s) => parse_signature(old(buf)@) matches Ok((e, k, g, n)) && s.expiration_time
                    == e && s.public_key@ == k && s.signature@ == g && final(buf)@ == after(
                    old(buf)@,
                    n,
                ),
                Err(e) => parse_signature(old(buf)@) == Err::<
                    (i64, Seq<u8>, Seq<u8>, nat),
                    ProtocolError,
                >(e),
            },
    {
        let expiration_time = buf.read_i64()?;
        let public_key = buf.read_byte_array()?;
        let signature = buf.read_byte_array()?;
        proof {
            let s0 = old(buf)@;
            let n1: nat = 8;
            let n2 = parse_byte_array(after(s0, n1))->Ok_0.1;
            let n3 = parse_byte_array(after(after(s0, n1), n2))->Ok_0.1;
            assert(after(after(after(s0, n1), n2), n3) =~= after(s0, n1 + n2 + n3));
        }
        Ok(Signature { expiration_time, public_key, signature })
    }
}

/// The start of a login: the player's name and, optionally, their UUID.
pub struct LoginStart {
    pub name: String,
    pub uuid: Option<Uuid>,
}

/// A flag byte, and the UUID it announces.
pub open spec fn parse_optional_uuid(bs: Seq<u8>) -> Result<Option<Uuid>, ProtocolError> {
    if bs.len() == 0 {
        Err(ProtocolError::UnexpectedEnd)
    } else if bs[0] == 0 {
        Ok(None)
    } else {
        match parse_uuid(after(bs, 1)) {
            Err(e) => Err(e),
            Ok((u, _)) => Ok(Some(u)),
        }
    }
}

/// A login start body: the name, then (in the older layout) an optional
/// signature block, then an optional UUID.
pub open spec fn parse_login_start(bs: Seq<u8>, protocol: i32) -> Result<
    (Seq<char>, Option<Uuid>),
    ProtocolError,
> {
    match parse_string(bs) {
        Err(e) => Err(e),
        Ok((name, n1)) => {
            let b1 = after(bs, n1);
            if protocol != PROTOCOL_WITH_SIGNATURE {
                match parse_optional_uuid(b1) {
                    Err(e) => Err(e),
                    Ok(u) => Ok((name, u)),
                }
            } else if b1.len() == 0 {
                Err(ProtocolError::UnexpectedEnd)
            } else if b1[0] == 0 {
                match parse_optional_uuid(after(b1, 1)) {
                    Err(e) => Err(e),
                    Ok(u) => Ok((name, u)),
                }
            } else {
                match parse_signature(after(b1, 1)) {
                    Err(e) => Err(e),
                    Ok((_, _, _, n2)) => match parse_optional_uuid(after(after(b1, 1), n2)) {
                        Err(e) => Err(e),
                        Ok(u) => Ok((name, u)),
                    },
                }
            }
        },
    }
}

fn read_optional_uuid(buf: &mut PacketReader) -> (r: Result<Option<Uuid>, ProtocolError>)
    ensures
        match r {
            Ok(u) => parse_optional_uuid(old(buf)@) == Ok::<Option<Uuid>, ProtocolError>(u),
            Err(e) => parse_optional_uuid(old(buf)@) == Err::<Option<Uuid>, ProtocolError>(e),
        },
{
    if buf.read_bool()? {
        let u = buf.read_uuid()?;
        Ok(Some(u))
    } else {
        Ok(None)
    }
}

impl LoginStart {
    /// Reads a login start in the layout of the protocol the client
    /// announced: the older one may hold a signature block, which is read
    /// and dropped.
    pub fn read(buf: &mut PacketReader, protocol: i32) -> (r: Result<LoginStart, ProtocolError>)
        ensures
            match r {
                Ok(p) => parse_login_start(old(buf)@, protocol) == Ok::<
                    (Seq<char>, Option<Uuid>),
                    ProtocolError,
                >((p.name@, p.uuid)),
                Err(e) => parse_login_start(old(buf)@, protocol) == Err::<
                    (Seq<char>, Option<Uuid>),
                    ProtocolError,
                >(e),
            },
    {
        let name = buf.read_string()?;
        if protocol == PROTOCOL_WITH_SIGNATURE {
            if buf.read_bool()? {
                let _signature = Signature::read(buf)?;
            }
        }
        let uuid = read_optional_uuid(buf)?;
        Ok(LoginStart { name, uuid })
    }
}

/// A packet the server sends: its id, and the bytes of its fields.
pub trait PacketFromServer {
    /// Whether every field fits its wire form.
    spec fn encodable(&self) -> bool;

    /// The bytes of the fields.
    spec fn encoding(&self) -> Seq<u8>;

    /// The packet id.
    spec fn spec_id() -> i32;

    fn id() -> (r: i32)
        ensures
            r == Self::spec_id(),
    ;

    /// Appends the fields; fails, writing nothing, when one does not fit.
    fn write(&self, out: &mut Vec<u8>) -> (r: Result<(), ProtocolError>)
        ensures
            r is Ok <==> self.encodable(),
            r is Ok ==> final(out)@ == old(out)@ + self.encoding(),
            r is Err ==> r == Err::<(), ProtocolError>(ProtocolError::LengthOverflow),
    ;
}

/// The server listing, already serialised to JSON.
pub struct StatusResponse {
    pub json: String,
}

impl PacketFromServer for StatusResponse {
    open spec fn encodable(&self) -> bool {
        fits_string_field(self.json@)
    }

    open spec fn encoding(&self) -> Seq<u8> {
        string_bytes(self.json@)
    }

    open spec fn spec_id() -> i32 {
        0x00
    }

    fn id() -> (r: i32) {
        0x00
    }

    fn write(&self, out: &mut Vec<u8>) -> (r: Result<(), ProtocolError>) {
        write_str(out, self.json.as_str())
    }
}

/// The payload of a ping, sent back.
pub struct PingResponse(pub i64);

impl PacketFromServer for PingResponse {
    open spec fn encodable(&self) -> bool {
        true
    }

    open spec fn encoding(&self) -> Seq<u8> {
        be_bytes(self.0.wire(), 8)
    }

    open spec fn spec_id() -> i32 {
        0x01
    }

    fn id() -> (r: i32) {
        0x01
    }

    fn write(&self, out: &mut Vec<u8>) -> (r: Result<(), ProtocolError>) {
        write_i64(out, self.0);
        Ok(())
    }
}

/// Turns compression on above the given threshold.
pub struct SetCompression(pub i32);

impl PacketFromServer for SetCompression {
    open spec fn encodable(&self) -> bool {
        true
    }

    open spec fn encoding(&self) -> Seq<u8> {
        var_bytes(self.0.wire())
    }

    open spec fn spec_id() -> i32 {
        0x03
    }

    fn id() -> (r: i32) {
        0x03
    }

    fn write(&self, out: &mut Vec<u8>) -> (r: Result<(), ProtocolError>) {
        write_var(out, self.0);
        Ok(())
    }
}

/// A profile property of a logged-in player.
pub struct LoginProperty {
    pub name: String,
    pub value: String,
    pub signature: Option<String>,
}

pub open spec fn property_encodable(name: Seq<char>, value: Seq<char>, signature: Option<Seq<char>>) -> bool {
    fits_string_field(name) && fits_string_field(value) && match signature {
        Some(s) => fits_string_field(s),
        None => true,
    }
}

/// Name, value, a flag, and the signature when there is one.
pub open spec fn property_bytes(name: Seq<char>, value: Seq<char>, signature: Option<Seq<char>>) -> Seq<u8> {
    string_bytes(name) + string_bytes(value) + match signature {
        Some(s) => seq![1u8] + string_bytes(s),
        None => seq![0u8],
    }
}

impl LoginProperty {
    pub open spec fn signature_view(&self) -> Option<Seq<char>> {
        match self.signature {
            Some(s) => Some(s@),
            None => None,
        }
    }

    pub fn write(&self, out: &mut Vec<u8>) -> (r: Result<(), ProtocolError>)
        ensures
            r is Ok <==> property_encodable(self.name@, self.value@, self.signature_view()),
            r is Ok ==> final(out)@ == old(out)@ + property_bytes(
                self.name@,
                self.value@,
                self.signature_view(),
            ),
            r is Err ==> r == Err::<(), ProtocolError>(ProtocolError::LengthOverflow),
    {
        let mut buf: Vec<u8> = Vec::new();
        write_str(&mut buf, self.name.as_str())?;
        write_str(&mut buf, self.value.as_str())?;
        match &self.signature {
            Some(s) => {
                write_bool(&mut buf, true);
                write_str(&mut buf, s.as_str())?;
            },
            None => {
                write_bool(&mut buf, false);
            },
        }
        crate::codec::push_all(out, buf.as_slice());
        proof {
            match self.signature_view() {
                Some(s) => {
                    assert(buf@ =~= property_bytes(self.name@, self.value@, self.signature_view()));
                },
                None => {
                    assert(buf@ =~= property_bytes(self.name@, self.value@, self.signature_view()));
                },
            }
        }
        Ok(())
    }
}

/// The wire form of an identifier: `namespace:path` as a string field.
pub open spec fn identifier_bytes(id: crate::identifier::IdentifierView) -> Seq<u8> {
    string_bytes(identifier_chars(id))
}

pub open spec fn identifier_fits(id: crate::identifier::IdentifierView) -> bool {
    fits_string_field(identifier_chars(id))
}

/// Writes an identifier as the string `namespace:path`.
pub fn write_identifier(out: &mut Vec<u8>, id: &Identifier) -> (r: Result<(), ProtocolError>)
    ensures
        r is Ok <==> identifier_fits(id@),
        r is Ok ==> final(out)@ == old(out)@ + identifier_bytes(id@),
        r is Err ==> r == Err::<(), ProtocolError>(ProtocolError::LengthOverflow) && final(out)@
            == old(out)@,
{
    let s = id.to_string();
    write_str(out, s.as_str())
}

/// The bytes of the properties, one after another.
pub open spec fn properties_bytes(ps: Seq<LoginProperty>) -> Seq<u8>
    decreases ps.len(),
{
    if ps.len() == 0 {
        Seq::empty()
    } else {
        properties_bytes(ps.drop_last()) + property_bytes(
            ps.last().name@,
            ps.last().value@,
            ps.last().signature_view(),
        )
    }
}

pub open spec fn properties_encodable(ps: Seq<LoginProperty>) -> bool {
    forall|i: int|
        0 <= i < ps.len() ==> property_encodable(
            #[trigger] ps[i].name@,
            ps[i].value@,
            ps[i].signature_view(),
        )
}

/// Tells the client its login went through.
pub struct LoginSuccess {
    pub uuid: Uuid,
    pub name: String,
    pub properties: Vec<LoginProperty>,
}

impl PacketFromServer for LoginSuccess {
    open spec fn encodable(&self) -> bool {
        fits_string_field(self.name@) && self.properties@.len() <= i32::MAX
            && properties_encodable(self.properties@)
    }

    open spec fn encoding(&self) -> Seq<u8> {
        uuid_bytes(self.uuid) + string_bytes(self.name@) + var_bytes(
            (self.properties@.len() as i32).wire(),
        ) + properties_bytes(self.properties@)
    }

    open spec fn spec_id() -> i32 {
        0x02
    }

    fn id() -> (r: i32) {
        0x02
    }

    fn write(&self, out: &mut Vec<u8>) -> (r: Result<(), ProtocolError>) {
        let mut buf: Vec<u8> = Vec::new();
        write_uuid(&mut buf, &self.uuid);
        write_str(&mut buf, self.name.as_str())?;
        if self.properties.len() > 0x7fff_ffff {
            return Err(ProtocolError::LengthOverflow);
        }
        write_var(&mut buf, self.properties.len() as i32);
        let ghost head = buf@;
        let mut i: usize = 0;
        while i < self.properties.len()
            invariant
                i <= self.properties@.len(),
                buf@ == head + properties_bytes(self.properties@.subrange(0, i as int)),
                properties_encodable(self.properties@.subrange(0, i as int)),
            decreases self.properties.len() - i,
        {
            let ghost before = buf@;
            self.properties[i].write(&mut buf)?;
            proof {
                let ps = self.properties@.subrange(0, i + 1 as int);
                assert(ps.drop_last() == self.properties@.subrange(0, i as int));
                assert(ps.last() == self.properties@[i as int]);
                assert forall|k: int| 0 <= k < ps.len() implies property_encodable(
                    #[trigger] ps[k].name@,
                    ps[k].value@,
                    ps[k].signature_view(),
                ) by {
                    if k < i {
                        assert(ps[k] == self.properties@.subrange(0, i as int)[k]);
                    }
                }
            }
            i = i + 1;
        }
        proof {
            assert(self.properties@.subrange(0, self.properties@.len() as int)
                == self.properties@);
        }
        push_all(out, buf.as_slice());
        Ok(())
    }
}

/// Ends a login with a reason, already serialised to JSON.
pub struct LoginDisconnect {
    pub reason_json: String,
}

impl PacketFromServer for LoginDisconnect {
    open spec fn encodable(&self) -> bool {
        fits_string_field(self.reason_json@)
    }

    open spec fn encoding(&self) -> Seq<u8> {
        string_bytes(self.reason_json@)
    }

    open spec fn spec_id() -> i32 {
        0x00
    }

    fn id() -> (r: i32) {
        0x00
    }

    fn write(&self, out: &mut Vec<u8>) -> (r: Result<(), ProtocolError>) {
        write_str(out, self.reason_json.as_str())
    }
}

/// Raw bytes on a named channel.
pub struct PluginMessageFromServer {
    pub channel: Identifier,
    pub data: Vec<u8>,
}

/// The channel on which a server names itself.
pub open spec fn brand_channel() -> crate::identifier::IdentifierView {
    crate::identifier::IdentifierView {
        namespace: crate::identifier::minecraft_chars(),
        path: seq!['b', 'r', 'a', 'n', 'd'],
    }
}

impl PluginMessageFromServer {
    /// The `minecraft:brand` message carrying `name` as a string field.
    pub fn brand(name: &str) -> (r: Result<PluginMessageFromServer, ProtocolError>)
        ensures
            match r {
                Ok(m) => fits_string_field(name@) && m.channel@ == brand_channel() && m.data@
                    == string_bytes(name@),
                Err(e) => !fits_string_field(name@) && e == ProtocolError::LengthOverflow,
            },
    {
        let mut data: Vec<u8> = Vec::new();
        write_str(&mut data, name)?;
        proof {
            reveal_strlit("brand");
            assert("brand"@ =~= seq!['b', 'r', 'a', 'n', 'd']);
            assert(crate::identifier::valid_path("brand"@));
        }
        let channel = Identifier::minecraft("brand");
        assert(data@ =~= string_bytes(name@));
        Ok(PluginMessageFromServer { channel, data })
    }
}

impl PacketFromServer for PluginMessageFromServer {
    open spec fn encodable(&self) -> bool {
        identifier_fits(self.channel@)
    }

    open spec fn encoding(&self) -> Seq<u8> {
        identifier_bytes(self.channel@) + self.data@
    }

    open spec fn spec_id() -> i32 {
        0x15
    }

    fn id() -> (r: i32) {
        0x15
    }

    fn write(&self, out: &mut Vec<u8>) -> (r: Result<(), ProtocolError>) {
        let mut buf: Vec<u8> = Vec::new();
        write_identifier(&mut buf, &self.channel)?;
        push_all(&mut buf, self.data.as_slice());
        push_all(out, buf.as_slice());
        Ok(())
    }
}

/// A player's game mode; its wire form is one signed byte.
#[derive(Debug, Clone, Copy, PartialEq, Eq, Structural)]
pub enum GameMode {
    Survival,
    Creative,
    Adventure,
    Spectator,
}

pub open spec fn game_mode_byte(m: GameMode) -> i8 {
    match m {
        GameMode::Survival => 0,
        GameMode::Creative => 1,
        GameMode::Adventure => 2,
        GameMode::Spectator => 3,
    }
}

impl GameMode {
    pub fn to_i8(self) -> (r: i8)
        ensures
            r == game_mode_byte(self),
    {
        match self {
            GameMode::Survival => 0,
            GameMode::Creative => 1,
            GameMode::Adventure => 2,
            GameMode::Spectator => 3,
        }
    }
}

/// The byte of a signed 8-bit value.
pub open spec fn i8_byte(v: i8) -> u8 {
    if v >= 0 {
        v as u8
    } else {
        (v + 256) as u8
    }
}

/// The packet that moves a client into play.
pub struct PlayLogin {
    pub entity_id: i32,
    pub hardcore: bool,
    pub game_mode: GameMode,
    pub last_game_mode: Option<GameMode>,
    pub worlds: Vec<Identifier>,
    /// The registries, already in NBT.
    pub registries_nbt: Vec<u8>,
    pub dimension_type: Identifier,
    pub world: Identifier,
    pub hashed_seed: i64,
    pub max_players: i32,
    pub view_distance: i32,
    pub simulation_distance: i32,
    pub reduced_debug_info: bool,
    pub respawn_screen: bool,
    pub debug_mode: bool,
    pub flat_world: bool,
    pub death_pos: Option<(Identifier, BlockPos)>,
}

pub open spec fn bool_byte(b: bool) -> u8 {
    if b {
        1
    } else {
        0
    }
}

/// The identifiers, one after another.
pub open spec fn identifiers_bytes(ids: Seq<Identifier>) -> Seq<u8>
    decreases ids.len(),
{
    if ids.len() == 0 {
        Seq::empty()
    } else {
        identifiers_bytes(ids.drop_last()) + identifier_bytes(ids.last()@)
    }
}

impl PlayLogin {
    /// Entity id, hardcore flag, game mode and last game mode.
    #[verifier::opaque]
    pub open spec fn prefix_bytes(&self) -> Seq<u8> {
        be_bytes(self.entity_id.wire(), 4) + seq![
            bool_byte(self.hardcore),
            i8_byte(game_mode_byte(self.game_mode)),
            i8_byte(
                match self.last_game_mode {
                    Some(m) => game_mode_byte(m),
                    None => -1i8,
                },
            ),
        ]
    }

    /// The count of worlds, then their identifiers.
    #[verifier::opaque]
    pub open spec fn worlds_bytes(&self) -> Seq<u8> {
        var_bytes((self.worlds@.len() as i32).wire()) + identifiers_bytes(self.worlds@)
    }

    /// Dimension type and current world.
    #[verifier::opaque]
    pub open spec fn place_bytes(&self) -> Seq<u8> {
        identifier_bytes(self.dimension_type@) + identifier_bytes(self.world@)
    }

    /// Seed, player and distance numbers, and the four flags.
    #[verifier::opaque]
    pub open spec fn settings_bytes(&self) -> Seq<u8> {
        be_bytes(self.hashed_seed.wire(), 8) + var_bytes(self.max_players.wire()) + var_bytes(
            self.view_distance.wire(),
        ) + var_bytes(self.simulation_distance.wire()) + seq![
            bool_byte(self.reduced_debug_info),
            bool_byte(self.respawn_screen),
            bool_byte(self.debug_mode),
            bool_byte(self.flat_world),
        ]
    }

    /// A flag, and the death location when there is one.
    #[verifier::opaque]
    pub open spec fn death_bytes(&self) -> Seq<u8> {
        match self.death_pos {
            Some((d, p)) => seq![1u8] + identifier_bytes(d@) + be_bytes(packed_block_pos(p), 8),
            None => seq![0u8],
        }
    }

    fn write_prefix(&self, out: &mut Vec<u8>)
        ensures
            final(out)@ == old(out)@ + self.prefix_bytes(),
    {
        reveal(PlayLogin::prefix_bytes);
        write_i32(out, self.entity_id);
        write_bool(out, self.hardcore);
        write_i8(out, self.game_mode.to_i8());
        let last: i8 = match self.last_game_mode {
            Some(m) => m.to_i8(),
            None => -1,
        };
        write_i8(out, last);
        assert(final(out)@ =~= old(out)@ + self.prefix_bytes());
    }

    fn write_worlds(&self, out: &mut Vec<u8>) -> (r: Result<(), ProtocolError>)
        ensures
            r is Ok <==> self.worlds@.len() <= i32::MAX && (forall|i: int|
                0 <= i < self.worlds@.len() ==> identifier_fits(#[trigger] self.worlds@[i]@)),
            r is Ok ==> final(out)@ == old(out)@ + self.worlds_bytes(),
            r is Err ==> r == Err::<(), ProtocolError>(ProtocolError::LengthOverflow),
    {
        reveal(PlayLogin::worlds_bytes);
        if self.worlds.len() > 0x7fff_ffff {
            return Err(ProtocolError::LengthOverflow);
        }
        write_var(out, self.worlds.len() as i32);
        let ghost head = out@;
        let mut i: usize = 0;
        while i < self.worlds.len()
            invariant
                i <= self.worlds@.len(),
                out@ == head + identifiers_bytes(self.worlds@.subrange(0, i as int)),
                forall|k: int| 0 <= k < i ==> identifier_fits(#[trigger] self.worlds@[k]@),
            decreases self.worlds.len() - i,
        {
            let res = write_identifier(out, &self.worlds[i]);
            if res.is_err() {
                return Err(ProtocolError::LengthOverflow);
            }
            proof {
                let ws = self.worlds@.subrange(0, i + 1 as int);
                assert(ws.drop_last() == self.worlds@.subrange(0, i as int));
                assert(ws.last() == self.worlds@[i as int]);
            }
            i = i + 1;
        }
        proof {
            assert(self.worlds@.subrange(0, self.worlds@.len() as int) == self.worlds@);
        }
        Ok(())
    }

    fn write_place(&self, out: &mut Vec<u8>) -> (r: Result<(), ProtocolError>)
        ensures
            r is Ok <==> identifier_fits(self.dimension_type@) && identifier_fits(self.world@),
            r is Ok ==> final(out)@ == old(out)@ + self.place_bytes(),
            r is Err ==> r == Err::<(), ProtocolError>(ProtocolError::LengthOverflow),
    {
        reveal(PlayLogin::place_bytes);
        write_identifier(out, &self.dimension_type)?;
        write_identifier(out, &self.world)?;
        assert(final(out)@ =~= old(out)@ + self.place_bytes());
        Ok(())
    }

    fn write_settings(&self, out: &mut Vec<u8>)
        ensures
            final(out)@ == old(out)@ + self.settings_bytes(),
    {
        reveal(PlayLogin::settings_bytes);
        write_i64(out, self.hashed_seed);
        write_var(out, self.max_players);
        write_var(out, self.view_distance);
        write_var(out, self.simulation_distance);
        write_bool(out, self.reduced_debug_info);
        write_bool(out, self.respawn_screen);
        write_bool(out, self.debug_mode);
        write_bool(out, self.flat_world);
        assert(final(out)@ =~= old(out)@ + self.settings_bytes());
    }

    fn write_death(&self, out: &mut Vec<u8>) -> (r: Result<(), ProtocolError>)
        ensures
            r is Ok <==> match self.death_pos {
                Some((d, _)) => identifier_fits(d@),
                None => true,
            },
            r is Ok ==> final(out)@ == old(out)@ + self.death_bytes(),
            r is Err ==> r == Err::<(), ProtocolError>(ProtocolError::LengthOverflow),
    {
        reveal(PlayLogin::death_bytes);
        match &self.death_pos {
            Some((d, p)) => {
                write_bool(out, true);
                write_identifier(out, d)?;
                write_block_pos(out, p);
            },
            None => {
                write_bool(out, false);
            },
        }
        assert(final(out)@ =~= old(out)@ + self.death_bytes());
        Ok(())
    }
}

impl PacketFromServer for PlayLogin {
    open spec fn encodable(&self) -> bool {
        self.worlds@.len() <= i32::MAX && (forall|i: int|
            0 <= i < self.worlds@.len() ==> identifier_fits(#[trigger] self.worlds@[i]@))
            && identifier_fits(self.dimension_type@) && identifier_fits(self.world@) && match self.death_pos {
            Some((d, _)) => identifier_fits(d@),
            None => true,
        }
    }

    open spec fn encoding(&self) -> Seq<u8> {
        self.prefix_bytes() + self.worlds_bytes() + self.registries_nbt@ + self.place_bytes()
            + self.settings_bytes() + self.death_bytes()
    }

    open spec fn spec_id() -> i32 {
        0x24
    }

    fn id() -> (r: i32) {
        0x24
    }

    fn write(&self, out: &mut Vec<u8>) -> (r: Result<(), ProtocolError>) {
        let mut buf: Vec<u8> = Vec::new();
        self.write_prefix(&mut buf);
        self.write_worlds(&mut buf)?;
        push_all(&mut buf, self.registries_nbt.as_slice());
        self.write_place(&mut buf)?;
        self.write_settings(&mut buf);
        self.write_death(&mut buf)?;
        assert(buf@ =~= self.encoding());
        push_all(out, buf.as_slice());
        Ok(())
    }
}

/// Writes one signed byte.
pub fn write_i8(out: &mut Vec<u8>, v: i8)
    ensures
        final(out)@ == old(out)@.push(i8_byte(v)),
{
    let b: u8 = if v >= 0 {
        v as u8
    } else {
        (v as i16 + 256) as u8
    };
    write_u8(out, b);
}

/// The errors of the body parsers are all about the body.
pub proof fn lemma_parse_errors(body: Seq<u8>, protocol: i32)
    ensures
        parse_handshake(body) matches Err(e) ==> !(e is UnknownPacketId),
        parse_ping(body) matches Err(e) ==> !(e is UnknownPacketId),
        parse_login_start(body, protocol) matches Err(e) ==> !(e is UnknownPacketId),
{
    assert forall|bs: Seq<u8>|
        !(#[trigger] var_decode::<i32>(bs) matches Err(ProtocolError::UnknownPacketId { .. })) by {
        lemma_var_decode_errors::<i32>(bs);
    }
    assert forall|bs: Seq<u8>|
        !(#[trigger] parse_string(bs) matches Err(ProtocolError::UnknownPacketId { .. })) by {
        lemma_var_decode_errors::<i32>(bs);
    }
    assert forall|bs: Seq<u8>|
        !(#[trigger] parse_byte_array(bs) matches Err(ProtocolError::UnknownPacketId { .. })) by {
        lemma_var_decode_errors::<i32>(bs);
    }
}

proof fn lemma_var_decode_errors<T: VarInt>(bs: Seq<u8>)
    ensures
        var_decode::<T>(bs) matches Err(e) ==> (e == ProtocolError::UnexpectedEnd || e
            == ProtocolError::MalformedVarInt),
{
}

} // verus!
