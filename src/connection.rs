use vstd::prelude::*;

use crate::codec::{PacketReader, Uuid};
use crate::error::{ConnectionState, ProtocolError};
use crate::frame::{
    frame_of, frame_packet, frame_step, length_prefixed, unpack_body, unpack_spec, FrameProgress,
    PartialPacket,
    COMPRESSION_THRESHOLD,
};
use crate::codec::{be_bytes, fits_string_field, string_bytes, uuid_bytes};
use crate::identifier::{identifier_chars, minestodon_chars, Identifier, IdentifierView};
use crate::world::fediverse_id;
use crate::packets::{
    brand_channel, identifier_bytes, identifier_fits, parse_handshake, parse_login_start,
    parse_ping, GameMode, Handshake, HandshakeView,
    LoginDisconnect, LoginStart, LoginSuccess, NextState, PacketFromServer, PingRequest,
    PingResponse, PlayLogin, PluginMessageFromServer, SetCompression, StatusResponse,
};
use crate::status::{legacy_response, legacy_response_bytes, legacy_response_string, legacy_response_text, Listing};
use crate::text::{
    no_formatting, ColorView, ContentView, FormattingView, FullTextView, NamedTextColor, Text,
    TextColor, TextView,
};
use crate::varint::{var_bytes, var_decode, VarInt, VarProgress};

verus! {

/// The first byte of a pre-1.7 ping.
pub const LEGACY_PING_BYTE: u8 = 0xFE;

/// Where reports of server errors should go.
pub const ISSUE_URL: &'static str = "https://github.com/minestodon/minestodon/issues";

/// What the caller of a connection should do next.
pub enum ConnectionAction {
    DoNothing,
    Close,
    /// A login started: make a player with this name.
    CreatePlayer { username: String },
}

/// The ids that a state accepts from the client: the handshake in the
/// handshake state, status request and ping in the status state, login
/// start in the login state.
pub open spec fn accepts(state: ConnectionState, id: i32) -> bool {
    match state {
        ConnectionState::Handshake => id == 0,
        ConnectionState::Status => id == 0 || id == 1,
        ConnectionState::Login => id == 0,
        ConnectionState::Play => false,
    }
}

/// A decoded server-bound packet.
pub enum ClientPacket {
    Handshake(Handshake),
    StatusRequest,
    PingRequest(PingRequest),
    LoginStart(LoginStart),
}

pub enum ClientPacketView {
    Handshake(HandshakeView),
    StatusRequest,
    PingRequest(i64),
    LoginStart(Seq<char>, Option<Uuid>),
}

impl View for ClientPacket {
    type V = ClientPacketView;

    open spec fn view(&self) -> ClientPacketView {
        match self {
            ClientPacket::Handshake(h) => ClientPacketView::Handshake(h@),
            ClientPacket::StatusRequest => ClientPacketView::StatusRequest,
            ClientPacket::PingRequest(p) => ClientPacketView::PingRequest(p.0),
            ClientPacket::LoginStart(l) => ClientPacketView::LoginStart(l.name@, l.uuid),
        }
    }
}

/// Decoding the packet `id`, with body `body`, in `state`.
pub open spec fn decode_spec(state: ConnectionState, protocol: i32, id: i32, body: Seq<u8>) -> Result<
    ClientPacketView,
    ProtocolError,
> {
    if !accepts(state, id) {
        Err(ProtocolError::UnknownPacketId { state, id })
    } else {
        match state {
            ConnectionState::Handshake => match parse_handshake(body) {
                Ok(h) => Ok(ClientPacketView::Handshake(h)),
                Err(e) => Err(e),
            },
            ConnectionState::Status => if id == 0 {
                Ok(ClientPacketView::StatusRequest)
            } else {
                match parse_ping(body) {
                    Ok(p) => Ok(ClientPacketView::PingRequest(p)),
                    Err(e) => Err(e),
                }
            },
            _ => match parse_login_start(body, protocol) {
                Ok((name, uuid)) => Ok(ClientPacketView::LoginStart(name, uuid)),
                Err(e) => Err(e),
            },
        }
    }
}

/// In every state exactly the documented ids are accepted (none in play):
/// an id outside the state's set fails with `UnknownPacketId` naming the
/// state and the id, and an id inside it never does, whatever the body.
pub proof fn lemma_accepted_ids(state: ConnectionState, protocol: i32, id: i32, body: Seq<u8>)
    ensures
        !accepts(state, id) <==> decode_spec(state, protocol, id, body) == Err::<
            ClientPacketView,
            ProtocolError,
        >(ProtocolError::UnknownPacketId { state, id }),
        accepts(state, id) ==> !(decode_spec(state, protocol, id, body) matches Err(
            ProtocolError::UnknownPacketId { .. },
        )),
{
    crate::packets::lemma_parse_errors(body, protocol);
}

/// Decodes the packet `id` in `state`; an id that the state does not accept
/// fails with `UnknownPacketId`.
pub fn decode_packet(state: ConnectionState, protocol: i32, id: i32, buf: &mut PacketReader) -> (r:
    Result<ClientPacket, ProtocolError>)
    ensures
        match r {
            Ok(p) => decode_spec(state, protocol, id, old(buf)@) == Ok::<
                ClientPacketView,
                ProtocolError,
            >(p@),
            Err(e) => decode_spec(state, protocol, id, old(buf)@) == Err::<
                ClientPacketView,
                ProtocolError,
            >(e),
        },
{
    match state {
        ConnectionState::Handshake => {
            if id == 0 {
                let h = Handshake::read(buf)?;
                Ok(ClientPacket::Handshake(h))
            } else {
                Err(ProtocolError::UnknownPacketId { state, id })
            }
        },
        ConnectionState::Status => {
            if id == 0 {
                Ok(ClientPacket::StatusRequest)
            } else if id == 1 {
                let p = PingRequest::read(buf)?;
                Ok(ClientPacket::PingRequest(p))
            } else {
                Err(ProtocolError::UnknownPacketId { state, id })
            }
        },
        ConnectionState::Login => {
            if id == 0 {
                let l = LoginStart::read(buf, protocol)?;
                Ok(ClientPacket::LoginStart(l))
            } else {
                Err(ProtocolError::UnknownPacketId { state, id })
            }
        },
        ConnectionState::Play => Err(ProtocolError::UnknownPacketId { state, id }),
    }
}

/// `b` is `a` or a later state: handshake leads to status or login, login
/// to play.
pub open spec fn forward(a: ConnectionState, b: ConnectionState) -> bool {
    a == b || (a == ConnectionState::Handshake && b != ConnectionState::Handshake) || (a
        == ConnectionState::Login && b == ConnectionState::Play)
}

/// The bytes of a packet before framing: its id, then its fields.
pub open spec fn packet_data<P: PacketFromServer>(p: &P) -> Seq<u8> {
    var_bytes(P::spec_id().wire()) + p.encoding()
}

/// What the caller should do, as a mathematical value.
pub enum ActionView {
    DoNothing,
    Close,
    CreatePlayer(Seq<char>),
}

pub open spec fn action_view(a: &ConnectionAction) -> ActionView {
    match a {
        ConnectionAction::DoNothing => ActionView::DoNothing,
        ConnectionAction::Close => ActionView::Close,
        ConnectionAction::CreatePlayer { username } => ActionView::CreatePlayer(username@),
    }
}

/// A connection as a mathematical value.
pub struct ConnView {
    pub packet: Option<FrameProgress>,
    pub modern: bool,
    pub state: ConnectionState,
    pub compressed: bool,
    pub protocol: i32,
    pub uuid: Option<Uuid>,
    pub pending: Seq<u8>,
}

/// Handling a decoded packet: a handshake records the protocol and moves
/// to the requested state; a status request queues the listing; a ping
/// queues its payload and closes; a login start asks for a player.
pub open spec fn handle_spec(c: ConnView, p: ClientPacketView, json: Seq<char>) -> Result<
    (ConnView, ActionView),
    ProtocolError,
> {
    match p {
        ClientPacketView::Handshake(h) => Ok(
            (
                ConnView {
                    state: if h.next_state == NextState::Status {
                        ConnectionState::Status
                    } else {
                        ConnectionState::Login
                    },
                    protocol: h.version,
                    ..c
                },
                ActionView::DoNothing,
            ),
        ),
        ClientPacketView::StatusRequest => {
            let data = var_bytes((0i32).wire()) + crate::codec::string_bytes(json);
            if crate::codec::fits_string_field(json) && data.len() <= i32::MAX {
                Ok((ConnView { pending: c.pending + length_prefixed(data), ..c }, ActionView::DoNothing))
            } else {
                Err(ProtocolError::LengthOverflow)
            }
        },
        ClientPacketView::PingRequest(v) => Ok(
            (
                ConnView {
                    pending: c.pending + length_prefixed(
                        var_bytes((1i32).wire()) + crate::codec::be_bytes(v.wire(), 8),
                    ),
                    ..c
                },
                ActionView::Close,
            ),
        ),
        ClientPacketView::LoginStart(name, _) => Ok((c, ActionView::CreatePlayer(name))),
    }
}

/// Handling the packet `id` whose fields are `body`: decoded for the
/// current state, then handled.
pub open spec fn packet_spec(c: ConnView, id: i32, body: Seq<u8>, json: Seq<char>) -> Result<
    (ConnView, ActionView),
    ProtocolError,
> {
    match decode_spec(c.state, c.protocol, id, body) {
        Err(e) => Err(e),
        Ok(p) => handle_spec(c, p, json),
    }
}

/// Handling one whole frame body: unpacked, its id read, then handled.
pub open spec fn frame_spec(c: ConnView, body: Seq<u8>, json: Seq<char>) -> Result<
    (ConnView, ActionView),
    ProtocolError,
> {
    match unpack_spec(body, c.compressed) {
        Err(e) => Err(e),
        Ok(payload) => match var_decode::<i32>(payload) {
            Err(e) => Err(e),
            Ok((id, n)) => packet_spec(c, id, payload.subrange(n as int, payload.len() as int), json),
        },
    }
}

/// One input byte; `rest` is what follows it in the same read. `None` means
/// "go on with the next byte".
pub open spec fn byte_spec(
    c: ConnView,
    byte: u8,
    rest: Seq<u8>,
    listing: &Listing,
    json: Seq<char>,
) -> Result<(ConnView, Option<ActionView>), ProtocolError> {
    if !c.modern && byte == LEGACY_PING_BYTE {
        let text = legacy_response_text(rest.len() == 0, listing);
        if crate::status::utf16_of(text).len() > 0xFFFF {
            Err(ProtocolError::LengthOverflow)
        } else {
            Ok(
                (
                    ConnView { pending: c.pending + legacy_response_bytes(text), ..c },
                    Some(ActionView::Close),
                ),
            )
        }
    } else {
        let p = match c.packet {
            Some(p) => p,
            None => FrameProgress::AwaitingLen(VarProgress::Partial(Seq::empty())),
        };
        match frame_step(p, byte) {
            Err(e) => Err(e),
            Ok(FrameProgress::Full(body)) => match frame_spec(
                ConnView { modern: true, packet: None, ..c },
                body,
                json,
            ) {
                Err(e) => Err(e),
                Ok((c2, a)) => Ok(
                    (
                        c2,
                        if a is DoNothing {
                            None
                        } else {
                            Some(a)
                        },
                    ),
                ),
            },
            Ok(other) => Ok((ConnView { modern: true, packet: Some(other), ..c }, None)),
        }
    }
}

/// The bytes of `input` from `i` on, until one asks for an action.
pub open spec fn tick_from(
    c: ConnView,
    input: Seq<u8>,
    i: nat,
    listing: &Listing,
    json: Seq<char>,
) -> Result<(ConnView, ActionView), ProtocolError>
    decreases input.len() - i,
{
    if i >= input.len() {
        Ok((c, ActionView::DoNothing))
    } else {
        match byte_spec(
            c,
            input[i as int],
            input.subrange(i + 1 as int, input.len() as int),
            listing,
            json,
        ) {
            Err(e) => Err(e),
            Ok((c2, Some(a))) => Ok((c2, a)),
            Ok((c2, None)) => tick_from(c2, input, i + 1, listing, json),
        }
    }
}

/// One read: empty means the client closed; otherwise its bytes in turn.
pub open spec fn tick_spec(c: ConnView, input: Seq<u8>, listing: &Listing, json: Seq<char>) -> Result<
    (ConnView, ActionView),
    ProtocolError,
> {
    if input.len() == 0 {
        Ok((c, ActionView::Close))
    } else {
        tick_from(c, input, 0, listing, json)
    }
}

impl View for Connection {
    type V = ConnView;

    closed spec fn view(&self) -> ConnView {
        ConnView {
            packet: match self.packet {
                Some(p) => Some(p@),
                None => None,
            },
            modern: self.definitely_modern,
            state: self.state,
            compressed: self.compressed,
            protocol: self.protocol,
            uuid: self.uuid,
            pending: self.outbox@,
        }
    }
}

/// One client's connection: framing, compression and the protocol state.
/// It consumes the bytes read from the client and collects the bytes to
/// send back.
pub struct Connection {
    packet: Option<PartialPacket>,
    definitely_modern: bool,
    state: ConnectionState,
    compressed: bool,
    protocol: i32,
    uuid: Option<Uuid>,
    outbox: Vec<u8>,
}

impl Connection {
    pub open spec fn spec_state(&self) -> ConnectionState {
        self@.state
    }

    pub open spec fn spec_compressed(&self) -> bool {
        self@.compressed
    }

    /// The UUID given to the player at login.
    pub open spec fn spec_uuid(&self) -> Option<Uuid> {
        self@.uuid
    }

    pub fn uuid(&self) -> (r: Option<Uuid>)
        ensures
            r == self.spec_uuid(),
    {
        self.uuid
    }

    /// The protocol number the client announced in its handshake.
    pub open spec fn spec_protocol(&self) -> i32 {
        self@.protocol
    }

    pub open spec fn spec_modern(&self) -> bool {
        self@.modern
    }

    /// The bytes waiting to be sent.
    pub open spec fn pending(&self) -> Seq<u8> {
        self@.pending
    }

    /// Compression is only ever on from login onwards, and a packet being
    /// assembled never holds more than its length.
    pub closed spec fn wf(&self) -> bool {
        &&& (self.compressed ==> (self.state == ConnectionState::Login || self.state
            == ConnectionState::Play))
        &&& match self.packet {
            Some(p) => p.wf() && !(p@ is Full),
            None => true,
        }
    }

    /// A fresh connection: handshake state, not known to be modern, no
    /// compression, nothing to send.
    pub fn new() -> (r: Connection)
        ensures
            r@ == (ConnView {
                packet: None,
                modern: false,
                state: ConnectionState::Handshake,
                compressed: false,
                protocol: 0,
                uuid: None,
                pending: Seq::empty(),
            }),
            r.wf(),
            r.spec_state() == ConnectionState::Handshake,
            !r.spec_modern(),
            !r.spec_compressed(),
            r.pending() == Seq::<u8>::empty(),
            r.spec_uuid() is None,
    {
        Connection {
            packet: None,
            definitely_modern: false,
            state: ConnectionState::Handshake,
            compressed: false,
            protocol: 0,
            uuid: None,
            outbox: Vec::new(),
        }
    }

    pub fn state(&self) -> (r: ConnectionState)
        ensures
            r == self.spec_state(),
    {
        self.state
    }

    pub fn compressed(&self) -> (r: bool)
        ensures
            r == self.spec_compressed(),
    {
        self.compressed
    }

    /// Hands out the bytes waiting to be sent, leaving none.
    pub fn take_outbox(&mut self) -> (r: Vec<u8>)
        ensures
            r@ == old(self).pending(),
            final(self).pending() == Seq::<u8>::empty(),
            final(self).spec_state() == old(self).spec_state(),
            final(self).spec_compressed() == old(self).spec_compressed(),
            final(self).spec_modern() == old(self).spec_modern(),
            final(self).spec_uuid() == old(self).spec_uuid(),
            old(self).wf() ==> final(self).wf(),
    {
        let mut out: Vec<u8> = Vec::new();
        std::mem::swap(&mut out, &mut self.outbox);
        out
    }

    /// Moves to a later state.
    pub fn set_state(&mut self, state: ConnectionState)
        requires
            forward(old(self).spec_state(), state),
            old(self).spec_compressed() ==> state != ConnectionState::Status,
        ensures
            final(self)@ == (ConnView { state, ..old(self)@ }),
            final(self).spec_state() == state,
            final(self).spec_compressed() == old(self).spec_compressed(),
            final(self).spec_modern() == old(self).spec_modern(),
            final(self).pending() == old(self).pending(),
            final(self).spec_uuid() == old(self).spec_uuid(),
            old(self).wf() ==> final(self).wf(),
    {
        self.state = state;
    }

    /// Frames `packet` in the current compression mode and queues it.
    pub fn send_packet<P: PacketFromServer>(&mut self, packet: &P) -> (r: Result<
        (),
        ProtocolError,
    >)
        ensures
            final(self).spec_state() == old(self).spec_state(),
            final(self).spec_compressed() == old(self).spec_compressed(),
            final(self).spec_modern() == old(self).spec_modern(),
            final(self).spec_uuid() == old(self).spec_uuid(),
            old(self).wf() ==> final(self).wf(),
            final(self)@ == (ConnView { pending: final(self)@.pending, ..old(self)@ }),
            !packet.encodable() ==> r == Err::<(), ProtocolError>(ProtocolError::LengthOverflow)
                && final(self).pending() == old(self).pending(),
            packet.encodable() ==> match frame_of(packet_data(packet), old(self).spec_compressed()) {
                Ok(f) => r is Ok && final(self).pending() == old(self).pending() + f,
                Err(e) => r == Err::<(), ProtocolError>(e) && final(self).pending() == old(self).pending(),
            },
    {
        let mut data: Vec<u8> = Vec::new();
        crate::varint::write_var(&mut data, P::id());
        packet.write(&mut data)?;
        assert(data@ =~= packet_data(packet));
        let framed = frame_packet(data.as_slice(), self.compressed)?;
        let ghost before = self.outbox@;
        crate::codec::push_all(&mut self.outbox, framed.as_slice());
        assert(self.outbox@ == before + framed@);
        Ok(())
    }
}

/// The state in which a decoded packet arrives.
pub open spec fn state_of_packet(p: ClientPacketView) -> ConnectionState {
    match p {
        ClientPacketView::Handshake(_) => ConnectionState::Handshake,
        ClientPacketView::StatusRequest => ConnectionState::Status,
        ClientPacketView::PingRequest(_) => ConnectionState::Status,
        ClientPacketView::LoginStart(_, _) => ConnectionState::Login,
    }
}

impl Connection {
    /// Acts on a decoded packet. A handshake moves to the state it asks
    /// for; a status request is answered with the listing; a ping is
    /// answered with its payload and closes; a login start asks the caller
    /// to make a player.
    pub fn handle_packet(&mut self, packet: ClientPacket, listing_json: &str) -> (r: Result<
        ConnectionAction,
        ProtocolError,
    >)
        requires
            old(self).wf(),
            state_of_packet(packet@) == old(self).spec_state(),
        ensures
            match handle_spec(old(self)@, packet@, listing_json@) {
                Ok((v, a)) => (r matches Ok(x) && action_view(&x) == a) && final(self)@ == v,
                Err(e) => r == Err::<ConnectionAction, ProtocolError>(e) && final(self)@ == old(self)@,
            },
            final(self).wf(),
            forward(old(self).spec_state(), final(self).spec_state()),
            final(self).spec_compressed() == old(self).spec_compressed(),
            final(self).spec_modern() == old(self).spec_modern(),
            final(self).spec_uuid() == old(self).spec_uuid(),
            match packet@ {
                ClientPacketView::Handshake(h) => (r matches Ok(ConnectionAction::DoNothing))
                    && final(self).spec_state() == (if h.next_state == NextState::Status {
                    ConnectionState::Status
                } else {
                    ConnectionState::Login
                }) && final(self).pending() == old(self).pending(),
                ClientPacketView::StatusRequest => final(self).spec_state() == old(self).spec_state() && match r {
                    Ok(a) => a is DoNothing && crate::codec::fits_string_field(listing_json@)
                        && final(self).pending() == old(self).pending() + length_prefixed(
                        var_bytes((0i32).wire()) + crate::codec::string_bytes(listing_json@),
                    ),
                    Err(e) => e == ProtocolError::LengthOverflow && final(self).pending() == old(self).pending(),
                } && (crate::codec::fits_string_field(listing_json@) && crate::codec::string_bytes(
                    listing_json@,
                ).len() + 1 < i32::MAX ==> r is Ok),
                ClientPacketView::PingRequest(p) => final(self).spec_state() == old(self).spec_state() && (r matches Ok(ConnectionAction::Close)) && final(self).pending()
                    == old(self).pending() + length_prefixed(
                    var_bytes((1i32).wire()) + crate::codec::be_bytes(p.wire(), 8),
                ),
                ClientPacketView::LoginStart(name, _) => final(self).spec_state() == old(self).spec_state() && final(self).pending() == old(self).pending() && (r matches Ok(
                    ConnectionAction::CreatePlayer { username },
                ) && username@ == name),
            },
    {
        match packet {
            ClientPacket::Handshake(h) => {
                self.protocol = h.version;
                match h.next_state {
                    NextState::Status => self.set_state(ConnectionState::Status),
                    NextState::Login => self.set_state(ConnectionState::Login),
                }
                Ok(ConnectionAction::DoNothing)
            },
            ClientPacket::StatusRequest => {
                let response = StatusResponse { json: String::from_str(listing_json) };
                let ghost before = self.pending();
                let res = self.send_packet(&response);
                proof {
                    assert(packet_data(&response) == var_bytes((0i32).wire())
                        + crate::codec::string_bytes(listing_json@));
                    crate::varint::lemma_encoding_len(0i32);
                }
                match res {
                    Ok(()) => Ok(ConnectionAction::DoNothing),
                    Err(e) => Err(e),
                }
            },
            ClientPacket::PingRequest(p) => {
                let response = PingResponse(p.0);
                let ghost before = self.pending();
                proof {
                    crate::codec::lemma_be_bytes_len(p.0.wire(), 8);
                    crate::varint::lemma_encoding_len(1i32);
                    assert(packet_data(&response).len() == 9);
                }
                let res = self.send_packet(&response);
                proof {
                    reveal_with_fuel(crate::codec::be_bytes, 9);
                    assert(crate::codec::be_bytes(p.0.wire(), 8).len() == 8);
                    crate::varint::lemma_encoding_len(1i32);
                }
                match res {
                    Ok(()) => Ok(ConnectionAction::Close),
                    Err(e) => Err(e),
                }
            },
            ClientPacket::LoginStart(l) => Ok(ConnectionAction::CreatePlayer { username: l.name }),
        }
    }
}

/// The connection has not seen a byte yet and the first one read is the
/// legacy ping byte.
pub open spec fn is_legacy_ping(modern: bool, input: Seq<u8>) -> bool {
    !modern && input.len() > 0 && input[0] == LEGACY_PING_BYTE
}

impl Connection {
    /// Queues the answer to a legacy ping; `request` is what followed the
    /// `0xFE`, and an empty one asks for the pre-1.4 format.
    pub fn send_legacy_status_response(&mut self, request: &[u8], listing: &Listing) -> (r:
        Result<(), ProtocolError>)
        ensures
            final(self)@ == (ConnView { pending: final(self)@.pending, ..old(self)@ }),
            r is Ok <==> crate::status::utf16_of(legacy_response_text(request@.len() == 0, listing)).len()
                <= 0xFFFF,
            final(self).spec_state() == old(self).spec_state(),
            final(self).spec_compressed() == old(self).spec_compressed(),
            final(self).spec_modern() == old(self).spec_modern(),
            final(self).spec_uuid() == old(self).spec_uuid(),
            old(self).wf() ==> final(self).wf(),
            match r {
                Ok(()) => final(self).pending() == old(self).pending() + legacy_response_bytes(
                    legacy_response_text(request@.len() == 0, listing),
                ),
                Err(e) => e == ProtocolError::LengthOverflow && final(self).pending() == old(self).pending(),
            },
    {
        let text = legacy_response_string(request.len() == 0, listing);
        let bytes = legacy_response(text.as_str())?;
        crate::codec::push_all(&mut self.outbox, bytes.as_slice());
        Ok(())
    }

    /// Decodes and handles one packet. An id that the current state does
    /// not accept (in play, any id) fails with `UnknownPacketId`; on any
    /// failure nothing is sent and the connection is unchanged.
    pub fn decode_and_handle_packet(&mut self, id: i32, buf: &mut PacketReader, listing_json: &str) -> (r:
        Result<ConnectionAction, ProtocolError>)
        requires
            old(self).wf(),
        ensures
            match packet_spec(old(self)@, id, old(buf)@, listing_json@) {
                Ok((v, a)) => (r matches Ok(x) && action_view(&x) == a) && final(self)@ == v,
                Err(e) => r == Err::<ConnectionAction, ProtocolError>(e),
            },
            r is Err ==> final(self)@ == old(self)@,
            final(self).wf(),
            forward(old(self).spec_state(), final(self).spec_state()),
            final(self).spec_compressed() == old(self).spec_compressed(),
            final(self).spec_modern() == old(self).spec_modern(),
            final(self).spec_uuid() == old(self).spec_uuid(),
            !accepts(old(self).spec_state(), id) ==> r == Err::<ConnectionAction, ProtocolError>(
                ProtocolError::UnknownPacketId { state: old(self).spec_state(), id },
            ),
            old(self).spec_state() == ConnectionState::Handshake ==> final(self).pending() == old(self).pending(),
    {
        let packet = decode_packet(self.state, self.protocol, id, buf)?;
        self.handle_packet(packet, listing_json)
    }

    /// Feeds one byte; `rest` is what follows it in the same read.
    fn receive_byte(&mut self, byte: u8, rest: &[u8], listing: &Listing, listing_json: &str) -> (r:
        Result<Option<ConnectionAction>, ProtocolError>)
        requires
            old(self).wf(),
        ensures
            match byte_spec(old(self)@, byte, rest@, listing, listing_json@) {
                Ok((v, a)) => (r matches Ok(x) && match x {
                    Some(act) => a == Some(action_view(&act)),
                    None => a is None,
                }) && final(self)@ == v,
                Err(e) => r == Err::<Option<ConnectionAction>, ProtocolError>(e),
            },
            final(self).wf(),
            forward(old(self).spec_state(), final(self).spec_state()),
            final(self).spec_compressed() == old(self).spec_compressed(),
            final(self).spec_uuid() == old(self).spec_uuid(),
            !(!old(self).spec_modern() && byte == LEGACY_PING_BYTE) ==> final(self).spec_modern(),
            old(self).spec_modern() ==> final(self).spec_modern(),
            !(!old(self).spec_modern() && byte == LEGACY_PING_BYTE) && old(self).spec_state()
                == ConnectionState::Handshake ==> final(self).pending() == old(self).pending(),
    {
        if !self.definitely_modern && byte == LEGACY_PING_BYTE {
            self.send_legacy_status_response(rest, listing)?;
            return Ok(Some(ConnectionAction::Close));
        }
        self.definitely_modern = true;
        let packet = match self.packet.take() {
            Some(p) => p,
            None => PartialPacket::new(),
        };
        match packet.next(byte)? {
            PartialPacket::Full(body) => {
                let payload = unpack_body(body.as_slice(), self.compressed)?;
                let mut reader = PacketReader::new(payload.as_slice());
                let id = reader.read_var::<i32>()?;
                let action = self.decode_and_handle_packet(id, &mut reader, listing_json)?;
                match action {
                    ConnectionAction::DoNothing => Ok(None),
                    other => Ok(Some(other)),
                }
            },
            partial => {
                self.packet = Some(partial);
                Ok(None)
            },
        }
    }

    /// Feeds the bytes of one read to the connection and returns what the
    /// caller should do. An empty read means the client closed. A first byte
    /// of `0xFE` on a new connection is a legacy ping: it is answered and
    /// the connection closes. Otherwise bytes are framed into packets, which
    /// are unpacked, decoded and handled in turn until one asks for more
    /// than nothing.
    pub fn tick(&mut self, input: &[u8], listing: &Listing, listing_json: &str) -> (r: Result<
        ConnectionAction,
        ProtocolError,
    >)
        requires
            old(self).wf(),
        ensures
            match tick_spec(old(self)@, input@, listing, listing_json@) {
                Ok((v, a)) => (r matches Ok(x) && action_view(&x) == a) && final(self)@ == v,
                Err(e) => r == Err::<ConnectionAction, ProtocolError>(e),
            },
            final(self).wf(),
            forward(old(self).spec_state(), final(self).spec_state()),
            final(self).spec_compressed() == old(self).spec_compressed(),
            final(self).spec_uuid() == old(self).spec_uuid(),
            !is_legacy_ping(old(self).spec_modern(), input@) && final(self).spec_state()
                == ConnectionState::Handshake ==> final(self).pending() == old(self).pending(),
            input@.len() == 0 ==> (r matches Ok(ConnectionAction::Close)) && final(self)@ == old(self)@,
            is_legacy_ping(old(self).spec_modern(), input@) ==> match r {
                Ok(a) => a is Close && final(self)@ == (ConnView {
                    pending: old(self).pending() + legacy_response_bytes(
                        legacy_response_text(input@.len() == 1, listing),
                    ),
                    ..old(self)@
                }),
                Err(e) => e == ProtocolError::LengthOverflow,
            },
            old(self).spec_modern() ==> final(self).spec_modern(),
            input@.len() > 0 && !is_legacy_ping(old(self).spec_modern(), input@) ==> final(self).spec_modern(),
    {
        if input.len() == 0 {
            return Ok(ConnectionAction::Close);
        }
        let ghost start = *self;
        let mut i: usize = 0;
        while i < input.len()
            invariant
                self.wf(),
                forward(start.spec_state(), self.spec_state()),
                self.spec_compressed() == start.spec_compressed(),
                self.spec_uuid() == start.spec_uuid(),
                start == *old(self),
                0 < input@.len(),
                i <= input@.len(),
                i > 0 ==> self.spec_modern(),
                start.spec_modern() ==> self.spec_modern(),
                i > 0 ==> !is_legacy_ping(start.spec_modern(), input@),
                i == 0 ==> *self == start,
                !is_legacy_ping(start.spec_modern(), input@) && self.spec_state()
                    == ConnectionState::Handshake ==> self.pending() == start.pending(),
                tick_from(self@, input@, i as nat, listing, listing_json@) == tick_spec(
                    start@,
                    input@,
                    listing,
                    listing_json@,
                ),
            decreases input.len() - i,
        {
            let ghost c = self@;
            let byte = input[i];
            let rest = &input[i + 1..input.len()];
            assert(rest@ == input@.subrange(i + 1 as int, input@.len() as int));
            let step = self.receive_byte(byte, rest, listing, listing_json);
            match step {
                Err(e) => {
                    return Err(e);
                },
                Ok(Some(action)) => {
                    return Ok(action);
                },
                Ok(None) => {},
            }
            i = i + 1;
        }
        Ok(ConnectionAction::DoNothing)
    }
}

/// The compression threshold announced in a set-compression packet.
pub const ANNOUNCED_THRESHOLD: i32 = 256;

/// The bytes of the set-compression packet, framed without compression.
pub open spec fn set_compression_frame() -> Seq<u8> {
    length_prefixed(var_bytes((3i32).wire()) + var_bytes(ANNOUNCED_THRESHOLD.wire()))
}

/// The server's world, `minestodon:world`.
pub open spec fn world_id() -> IdentifierView {
    IdentifierView { namespace: minestodon_chars(), path: "world"@ }
}

/// The id and fields of the play login sent at set-up: the given entity id,
/// not hardcore, adventure mode, no last mode, the one world
/// `minestodon:world`, the registries, dimension type `minestodon:fediverse`,
/// seed 0, max players 0, view and simulation distance 32, no reduced debug
/// info, a respawn screen, no debug mode, a flat world, no death location.
pub open spec fn setup_login_data(entity_id: i32, nbt: Seq<u8>) -> Seq<u8> {
    var_bytes((0x24i32).wire()) + be_bytes(entity_id.wire(), 4) + seq![0u8, 2u8, 0xFFu8]
        + var_bytes((1i32).wire()) + identifier_bytes(world_id()) + nbt + identifier_bytes(
        fediverse_id(),
    ) + identifier_bytes(world_id()) + be_bytes((0i64).wire(), 8) + var_bytes((0i32).wire())
        + var_bytes((32i32).wire()) + var_bytes((32i32).wire()) + seq![0u8, 1u8, 0u8, 1u8, 0u8]
}

/// The id and fields of the brand message: `minecraft:brand`, then
/// "Minestodon" as a string field.
pub open spec fn brand_data() -> Seq<u8> {
    var_bytes((0x15i32).wire()) + identifier_bytes(brand_channel()) + string_bytes("Minestodon"@)
}

/// The frames that set-up queues: the play login, then the brand.
pub open spec fn setup_frames(compressed: bool, entity_id: i32, nbt: Seq<u8>) -> Result<
    Seq<u8>,
    ProtocolError,
> {
    match frame_of(setup_login_data(entity_id, nbt), compressed) {
        Err(e) => Err(e),
        Ok(f1) => match frame_of(brand_data(), compressed) {
            Err(e) => Err(e),
            Ok(f2) => Ok(f1 + f2),
        },
    }
}

/// The id and fields of a login success with no properties.
pub open spec fn login_success_data(uuid: Uuid, name: Seq<char>) -> Seq<u8> {
    var_bytes((2i32).wire()) + uuid_bytes(uuid) + string_bytes(name) + var_bytes((0i32).wire())
}

/// Everything a finished login queues: set-compression uncompressed, then,
/// compressed, the login success and the set-up frames.
pub open spec fn join_frames(uuid: Uuid, name: Seq<char>, entity_id: i32, nbt: Seq<u8>) -> Result<
    Seq<u8>,
    ProtocolError,
> {
    if !fits_string_field(name) {
        Err(ProtocolError::LengthOverflow)
    } else {
        match frame_of(login_success_data(uuid, name), true) {
            Err(e) => Err(e),
            Ok(f1) => match setup_frames(true, entity_id, nbt) {
                Err(e) => Err(e),
                Ok(f2) => Ok(set_compression_frame() + f1 + f2),
            },
        }
    }
}

/// An ASCII string no longer than 65535 characters fits a string field.
proof fn lemma_ascii_fits(s: Seq<char>)
    requires
        vstd::utf8::is_ascii_chars(s),
        s.len() <= 0xFFFF,
    ensures
        fits_string_field(s),
{
    vstd::utf8::is_ascii_chars_encode_utf8(s);
}

proof fn lemma_setup_names_fit()
    ensures
        identifier_fits(world_id()),
        identifier_fits(fediverse_id()),
        identifier_fits(brand_channel()),
        fits_string_field("Minestodon"@),
{
    reveal_strlit("world");
    reveal_strlit("fediverse");
    reveal_strlit("Minestodon");
    lemma_ascii_fits(identifier_chars(world_id()));
    lemma_ascii_fits(identifier_chars(fediverse_id()));
    lemma_ascii_fits(identifier_chars(brand_channel()));
    lemma_ascii_fits("Minestodon"@);
}

impl Connection {
    /// Finishes a login: announces compression (this packet itself still
    /// uncompressed) and turns it on, confirms the login with the player's
    /// UUID and name, moves to play and sends the play setup.
    pub fn finish_joining(
        &mut self,
        uuid: Uuid,
        username: &str,
        entity_id: i32,
        registries_nbt: &[u8],
    ) -> (r: Result<(), ProtocolError>)
        requires
            old(self).wf(),
            old(self).spec_state() == ConnectionState::Login,
            !old(self).spec_compressed(),
        ensures
            final(self).wf(),
            final(self).spec_modern() == old(self).spec_modern(),
            forward(old(self).spec_state(), final(self).spec_state()),
            match join_frames(uuid, username@, entity_id, registries_nbt@) {
                Ok(f) => r is Ok && final(self)@ == (ConnView {
                    state: ConnectionState::Play,
                    compressed: true,
                    uuid: Some(uuid),
                    pending: old(self).pending() + f,
                    ..old(self)@
                }),
                Err(e) => r == Err::<(), ProtocolError>(e),
            },
    {
        self.uuid = Some(uuid);
        let ghost before = self.pending();
        proof {
            crate::varint::lemma_encoding_len(3i32);
            crate::varint::lemma_encoding_len(ANNOUNCED_THRESHOLD);
        }
        let r1 = self.send_packet(&SetCompression(ANNOUNCED_THRESHOLD));
        assert(packet_data(&SetCompression(ANNOUNCED_THRESHOLD)) == var_bytes((3i32).wire())
            + var_bytes(ANNOUNCED_THRESHOLD.wire()));
        assert(r1 is Ok);
        self.compressed = true;
        let success = LoginSuccess {
            uuid,
            name: String::from_str(username),
            properties: Vec::new(),
        };
        proof {
            assert(success.properties@ =~= Seq::<crate::packets::LoginProperty>::empty());
            assert(crate::packets::properties_bytes(success.properties@) =~= Seq::<u8>::empty());
            assert(packet_data(&success) =~= login_success_data(uuid, username@));
        }
        let ghost after_compression = self.pending();
        self.send_packet(&success)?;
        let ghost after_success = self.pending();
        self.set_state(ConnectionState::Play);
        self.set_up(entity_id, registries_nbt)?;
        proof {
            let f1 = frame_of(login_success_data(uuid, username@), true)->Ok_0;
            let f2 = setup_frames(true, entity_id, registries_nbt@)->Ok_0;
            assert(self.pending() =~= old(self).pending() + (set_compression_frame() + f1 + f2));
        }
        Ok(())
    }

    /// Sends what a client needs to enter play: the play login and the
    /// server's brand.
    pub fn set_up(&mut self, entity_id: i32, registries_nbt: &[u8]) -> (r: Result<
        (),
        ProtocolError,
    >)
        requires
            old(self).wf(),
        ensures
            final(self).wf(),
            final(self)@ == (ConnView { pending: final(self)@.pending, ..old(self)@ }),
            match setup_frames(old(self).spec_compressed(), entity_id, registries_nbt@) {
                Ok(f) => r is Ok && final(self).pending() == old(self).pending() + f,
                Err(e) => r == Err::<(), ProtocolError>(e),
            },
    {
        proof {
            reveal_strlit("world");
            reveal_strlit("fediverse");
            assert(crate::identifier::valid_path("world"@));
            assert(crate::identifier::valid_path("fediverse"@));
            lemma_setup_names_fit();
        }
        let mut worlds: Vec<Identifier> = Vec::new();
        worlds.push(Identifier::minestodon("world"));
        let mut nbt: Vec<u8> = Vec::new();
        crate::codec::push_all(&mut nbt, registries_nbt);
        assert(nbt@ =~= registries_nbt@);
        let login = PlayLogin {
            entity_id,
            hardcore: false,
            game_mode: GameMode::Adventure,
            last_game_mode: None,
            worlds,
            registries_nbt: nbt,
            dimension_type: Identifier::minestodon("fediverse"),
            world: Identifier::minestodon("world"),
            hashed_seed: 0,
            max_players: 0,
            view_distance: 32,
            simulation_distance: 32,
            reduced_debug_info: false,
            respawn_screen: true,
            debug_mode: false,
            flat_world: true,
            death_pos: None,
        };
        proof {
            reveal(PlayLogin::prefix_bytes);
            reveal(PlayLogin::worlds_bytes);
            reveal(PlayLogin::place_bytes);
            reveal(PlayLogin::settings_bytes);
            reveal(PlayLogin::death_bytes);
            let ws = login.worlds@;
            assert(ws.len() == 1);
            assert(ws.drop_last() =~= Seq::<Identifier>::empty());
            assert(crate::packets::identifiers_bytes(Seq::<Identifier>::empty()) == Seq::<u8>::empty());
            assert(ws.last() == ws[0]);
            assert(ws[0]@ == world_id());
            assert(crate::packets::identifiers_bytes(ws) =~= identifier_bytes(world_id()));
            assert(login.worlds@[0]@ == world_id());
            assert(packet_data(&login) =~= setup_login_data(entity_id, registries_nbt@));
        }
        self.send_packet(&login)?;
        let brand = match PluginMessageFromServer::brand("Minestodon") {
            Ok(b) => b,
            Err(e) => {
                proof {
                    assert(false);
                }
                return Err(e);
            },
        };
        proof {
            assert(packet_data(&brand) =~= brand_data());
        }
        self.send_packet(&brand)?;
        Ok(())
    }

    /// Kicks the client with a reason given as JSON text. Only the login
    /// state has a disconnect packet here; elsewhere kicking fails and
    /// nothing is sent.
    pub fn send_kick(&mut self, reason_json: &str) -> (r: Result<(), ProtocolError>)
        requires
            old(self).wf(),
        ensures
            final(self).wf(),
            old(self).spec_state() != ConnectionState::Login ==> r == Err::<(), ProtocolError>(
                ProtocolError::KickNotAllowedInState,
            ) && final(self)@ == old(self)@,
            old(self).spec_state() == ConnectionState::Login && !fits_string_field(reason_json@)
                ==> r == Err::<(), ProtocolError>(ProtocolError::LengthOverflow) && final(self)@
                == old(self)@,
            old(self).spec_state() == ConnectionState::Login && fits_string_field(reason_json@)
                ==> match frame_of(
                var_bytes((0i32).wire()) + string_bytes(reason_json@),
                old(self).spec_compressed(),
            ) {
                Ok(f) => r is Ok && final(self)@ == (ConnView {
                    pending: old(self).pending() + f,
                    ..old(self)@
                }),
                Err(e) => r == Err::<(), ProtocolError>(e) && final(self)@ == old(self)@,
            },
    {
        if self.state != ConnectionState::Login {
            return Err(ProtocolError::KickNotAllowedInState);
        }
        let packet = LoginDisconnect { reason_json: String::from_str(reason_json) };
        assert(packet_data(&packet) == var_bytes((0i32).wire()) + string_bytes(reason_json@));
        let r = self.send_packet(&packet);
        proof {
            if r is Err {
                assert(self@ =~= old(self)@);
            }
        }
        r
    }
}

/// A plain node with only a colour, and maybe underlining, set.
pub open spec fn colored_node(s: Seq<char>, c: NamedTextColor, underlined: Option<bool>) -> TextView {
    TextView::Full(
        FullTextView {
            content: ContentView::Plain(s),
            children: Seq::empty(),
            formatting: FormattingView {
                color: Some(ColorView::Named(c)),
                underlined,
                ..no_formatting()
            },
        },
    )
}

/// The kick text for an error: an empty string, then the header, the error
/// and the footer as a sequence.
pub open spec fn error_kick_view(error: Seq<char>) -> TextView {
    TextView::Sequential(
        seq![
            TextView::Str(Seq::empty()),
            colored_node("Minestodon Error\n\n"@, NamedTextColor::Red, Some(true)),
            colored_node(error, NamedTextColor::Gray, None),
            colored_node(
                "\n\nThis is probably not your fault! Please report it here:\n"@ + ISSUE_URL@,
                NamedTextColor::Gold,
                None,
            ),
        ],
    )
}

/// The text of a kick caused by a server error: a red underlined header,
/// the error in gray, and a gold footer pointing at the issue tracker.
pub fn error_kick_reason(error: String) -> (r: Text)
    ensures
        r@ == error_kick_view(error@),
{
    let header_text = String::from_str("Minestodon Error\n\n");
    let ghost hv = header_text@;
    let header = Text::from_string(header_text).color(TextColor::Named(NamedTextColor::Red));
    assert(header@ == colored_node(hv, NamedTextColor::Red, None));
    let header = header.underlined(true);
    assert(header@ == colored_node(hv, NamedTextColor::Red, Some(true)));
    let ghost ev = error@;
    let body = Text::from_string(error).color(TextColor::Named(NamedTextColor::Gray));
    assert(body@ == colored_node(ev, NamedTextColor::Gray, None));
    let mut footer_text = String::from_str(
        "\n\nThis is probably not your fault! Please report it here:\n",
    );
    crate::text::push_str(&mut footer_text, ISSUE_URL);
    let ghost fv = footer_text@;
    let footer = Text::from_string(footer_text).color(TextColor::Named(NamedTextColor::Gold));
    assert(footer@ == colored_node(fv, NamedTextColor::Gold, None));
    let ghost s3 = seq![
        TextView::Str(Seq::<char>::empty()),
        colored_node(hv, NamedTextColor::Red, Some(true)),
        colored_node(ev, NamedTextColor::Gray, None),
    ];
    let mid = header.push_sequential(body);
    assert(mid@ == TextView::Sequential(s3));
    let r = mid.push_sequential(footer);
    assert(s3.push(colored_node(fv, NamedTextColor::Gold, None)) =~= seq![
        TextView::Str(Seq::<char>::empty()),
        colored_node(hv, NamedTextColor::Red, Some(true)),
        colored_node(ev, NamedTextColor::Gray, None),
        colored_node(fv, NamedTextColor::Gold, None),
    ]);
    assert(r@ == TextView::Sequential(
        seq![
            TextView::Str(Seq::empty()),
            colored_node(hv, NamedTextColor::Red, Some(true)),
            colored_node(ev, NamedTextColor::Gray, None),
            colored_node(fv, NamedTextColor::Gold, None),
        ],
    ));
    r
}

} // verus!
