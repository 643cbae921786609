use minestodon::codec::{write_uuid, BlockPos, PacketReader, Uuid};
use minestodon::connection::{decode_packet, error_kick_reason, Connection, ConnectionAction};
use minestodon::error::{ConnectionState, ProtocolError};
use minestodon::frame::{frame_packet, unpack_body, PartialPacket};
use minestodon::identifier::Identifier;
use minestodon::registry::{init, Registry};
use minestodon::server::{listing, ServerContext, ShouldClose};
use minestodon::status::{legacy_response, legacy_response_string, Listing, ListingPlayers, ListingVersion};
use minestodon::text::{parse_hex, NamedTextColor, Text, TextColor};
use minestodon::varint::{decode_var, encode_var, PartialVarInt};

fn frame(data: &[u8]) -> Vec<u8> {
    frame_packet(data, false).unwrap()
}

/// Splits a byte stream into frame bodies.
fn bodies(mut bytes: &[u8]) -> Vec<Vec<u8>> {
    let mut out = vec![];
    while !bytes.is_empty() {
        let (len, n) = decode_var::<i32>(bytes).unwrap();
        let len = len as usize;
        out.push(bytes[n..n + len].to_vec());
        bytes = &bytes[n + len..];
    }
    out
}

fn handshake(next: u8) -> Vec<u8> {
    let mut data = vec![0x00];
    data.extend(encode_var(761i32));
    data.extend([0x01, b'x', 0x63, 0xDD, next]);
    frame(&data)
}

fn plain_listing(motd: &str) -> Listing {
    Listing {
        version: ListingVersion { value: 761, name: "Minestodon 1.19.3".to_string() },
        players: ListingPlayers { current: 0, max: 1, sample: None },
        motd: Text::from_string(motd.to_string()),
        icon: None,
    }
}

#[test]
fn varint_boundaries_decode() {
    assert_eq!(decode_var::<i32>(&[0xFF, 0xFF, 0xFF, 0xFF, 0x07]), Ok((2_147_483_647, 5)));
    assert_eq!(decode_var::<i32>(&[0x80, 0x80, 0x80, 0x80, 0x08]), Ok((-2_147_483_648, 5)));
}

#[test]
fn over_long_varint_fails_on_sixth_byte() {
    let mut p = PartialVarInt::<i32>::new();
    for _ in 0..5 {
        p = p.next(0x80).unwrap();
        assert!(matches!(p, PartialVarInt::Partial(_)));
    }
    assert!(matches!(p.next(0x80), Err(ProtocolError::MalformedVarInt)));
    assert_eq!(decode_var::<i32>(&[0x80; 6]), Err(ProtocolError::MalformedVarInt));
    assert_eq!(decode_var::<i32>(&[0x80; 5]), Err(ProtocolError::UnexpectedEnd));
}

#[test]
fn incremental_varint_completes_where_one_shot_ends() {
    for v in [0i64, 1, 127, 128, 300, -1, i64::MAX, i64::MIN, 1 << 40] {
        let mut bytes = encode_var(v);
        let len = bytes.len();
        bytes.extend([0x01, 0x02]);
        assert_eq!(decode_var::<i64>(&bytes), Ok((v, len)));
        let mut p = PartialVarInt::<i64>::new();
        for (i, b) in bytes.iter().take(len).enumerate() {
            p = p.next(*b).unwrap();
            if i + 1 < len {
                assert!(matches!(p, PartialVarInt::Partial(_)));
            }
        }
        assert!(matches!(p, PartialVarInt::Full(x) if x == v));
    }
}

#[test]
fn varint_round_trip_and_length() {
    for v in [0i32, 1, -1, 255, 25565, i32::MAX, i32::MIN, -300] {
        let e = encode_var(v);
        assert!(e.len() <= 5);
        assert_eq!(decode_var::<i32>(&e), Ok((v, e.len())));
    }
    assert_eq!(encode_var(-1i64).len(), 10);
    assert_eq!(encode_var(300i32), vec![0xAC, 0x02]);
}

#[test]
fn string_round_trip_unicode() {
    let s = "héllo §ünïcødé 🎮";
    let mut buf = vec![];
    minestodon::codec::write_str(&mut buf, s).unwrap();
    buf.push(0x42);
    let mut r = PacketReader::new(&buf);
    assert_eq!(r.read_string().unwrap(), s);
    assert_eq!(r.remaining(), &[0x42]);
}

#[test]
fn string_errors() {
    assert_eq!(PacketReader::new(&[0x7F]).read_string(), Err(ProtocolError::UnexpectedEnd));
    assert_eq!(
        PacketReader::new(&[0xFF, 0xFF, 0xFF, 0xFF, 0x0F]).read_string(),
        Err(ProtocolError::StringLengthNegative)
    );
    assert_eq!(PacketReader::new(&[0x02, 0xC3, 0x28]).read_string(), Err(ProtocolError::StringNotUtf8));
}

#[test]
fn uuid_round_trip() {
    let u = Uuid::from_u64_pair(0x0123_4567_89AB_CDEF, 0xFEDC_BA98_7654_3210);
    let mut buf = vec![];
    write_uuid(&mut buf, &u);
    assert_eq!(buf[0], 0x01);
    assert_eq!(buf[15], 0x10);
    assert_eq!(PacketReader::new(&buf).read_uuid(), Ok(u));
    assert_eq!(u.as_u64_pair(), (0x0123_4567_89AB_CDEF, 0xFEDC_BA98_7654_3210));
}

#[test]
fn compressed_frame_round_trip() {
    let data: Vec<u8> = (0..1000u32).map(|i| (i % 7) as u8).collect();
    let framed = frame_packet(&data, true).unwrap();
    let (len, n) = decode_var::<i32>(&framed).unwrap();
    assert_eq!(len as usize, framed.len() - n);
    let body = &framed[n..];
    assert_eq!(decode_var::<i32>(body), Ok((1000, 2)));
    assert!(body.len() < 1000);
    assert_eq!(unpack_body(body, true).unwrap(), data);
}

#[test]
fn small_compressed_frame_has_zero_marker() {
    let data = vec![0x01, 0x02, 0x03];
    let framed = frame_packet(&data, true).unwrap();
    assert_eq!(framed, vec![0x04, 0x00, 0x01, 0x02, 0x03]);
    assert_eq!(unpack_body(&framed[1..], true).unwrap(), data);
    assert_eq!(frame_packet(&data, false).unwrap(), vec![0x03, 0x01, 0x02, 0x03]);
}

#[test]
fn bad_compressed_body_fails() {
    assert_eq!(unpack_body(&[0x05, 0x00, 0x01], true), Err(ProtocolError::CompressionFormatError));
}

#[test]
fn frame_assembler_collects_body() {
    let mut p = PartialPacket::new();
    for b in [0x03u8, 0x0A, 0x0B] {
        p = p.next(b).unwrap();
        assert!(!matches!(p, PartialPacket::Full(_)));
    }
    p = p.next(0x0C).unwrap();
    assert!(matches!(p, PartialPacket::Full(ref b) if b == &vec![0x0A, 0x0B, 0x0C]));
}

#[test]
fn hex_colours_collapse_to_nearest_named() {
    let red = TextColor::Hex("#ff5555".to_string());
    assert_eq!(red.legacy_char(), Ok('c'));
    // White and reset share an RGB value; the earlier one wins.
    assert_eq!(TextColor::Hex("#ffffff".to_string()).legacy_char(), Ok('f'));
    assert_eq!(TextColor::Hex("#010101".to_string()).legacy_char(), Ok('0'));
    assert_eq!(TextColor::Hex("#zz0000".to_string()).legacy_char(), Err(ProtocolError::InvalidHexColor));
    assert_eq!(parse_hex("##6364ff"), Ok([0x63, 0x64, 0xff]));
    assert_eq!(parse_hex("#6364"), Err(ProtocolError::InvalidHexColor));
}

#[test]
fn legacy_rendering() {
    let t = Text::from_string("Hi".to_string())
        .color(TextColor::Named(NamedTextColor::Gold))
        .bolded(true)
        .italicized(false)
        .push_sequential(Text::Number(-42))
        .push_sequential(Text::Bool(true));
    assert_eq!(t.to_legacy_string(), "\u{a7}6\u{a7}lHi-42true");
    assert_eq!(t.to_plain_string(), "Hi-42true");
    let m = listing().motd;
    assert_eq!(m.to_plain_string(), "Minestodon!");
    assert_eq!(m.to_legacy_string(), "\u{a7}9\u{a7}lMinestodon!");
}

#[test]
fn unknown_packet_ids_fail() {
    let body = [0u8; 0];
    for (state, id) in [
        (ConnectionState::Handshake, 1),
        (ConnectionState::Status, 2),
        (ConnectionState::Login, 1),
        (ConnectionState::Handshake, 0x7F),
        (ConnectionState::Play, 0x00),
        (ConnectionState::Play, 0x12),
    ] {
        let mut r = PacketReader::new(&body);
        assert!(matches!(
            decode_packet(state, 761, id, &mut r),
            Err(ProtocolError::UnknownPacketId { state: s, id: i }) if s == state && i == id
        ));
    }
    let mut r = PacketReader::new(&body);
    assert!(matches!(decode_packet(ConnectionState::Status, 761, 0, &mut r), Ok(_)));
}

#[test]
fn registry_ids_are_dense_and_duplicates_fail() {
    let mut reg: Registry<u8> = Registry::new(Identifier::minecraft("test"));
    reg.init();
    assert_eq!(reg.register(Identifier::parse("a").unwrap(), 1), Ok(0));
    assert_eq!(reg.register(Identifier::parse("b").unwrap(), 2), Ok(1));
    assert_eq!(reg.register(Identifier::parse("minecraft:a").unwrap(), 3), Err(ProtocolError::DuplicateRegistryKey));
    assert_eq!(reg.register(Identifier::parse("x:a").unwrap(), 4), Ok(2));
    assert_eq!(reg.len(), 3);
    assert_eq!(reg.id_of(&Identifier::parse("b").unwrap()), Some(1));
    assert_eq!(*reg.entry(2).1, 4);
}

#[test]
fn identifiers_parse_and_validate() {
    let id = Identifier::parse("minestodon:world/x").unwrap();
    assert_eq!(id.namespace(), "minestodon");
    assert_eq!(id.path(), "world/x");
    assert_eq!(Identifier::parse("stone").unwrap().to_string(), "minecraft:stone");
    assert_eq!(Identifier::parse("Bad:stone").err(), Some(ProtocolError::InvalidIdentifier));
    assert_eq!(Identifier::parse("a/b:stone").err(), Some(ProtocolError::InvalidIdentifier));
    assert_eq!(Identifier::parse("ok:Stone").err(), Some(ProtocolError::InvalidIdentifier));
}

#[test]
fn modern_status_exchange() {
    let mut c = Connection::new();
    let mut input = handshake(1);
    input.extend(frame(&[0x00]));
    let mut ping = vec![0x01];
    ping.extend(0x0123_4567_89AB_CDEFi64.to_be_bytes());
    input.extend(frame(&ping));
    let json = "{\"a\":1}";
    let action = c.tick(&input, &listing(), json).unwrap();
    assert!(matches!(action, ConnectionAction::Close));
    let out = c.take_outbox();
    let b = bodies(&out);
    assert_eq!(b.len(), 2);
    let mut status = vec![0x00, json.len() as u8];
    status.extend(json.as_bytes());
    assert_eq!(b[0], status);
    assert_eq!(b[1], ping);
    assert_eq!(c.state(), ConnectionState::Status);
}

#[test]
fn empty_read_closes() {
    let mut c = Connection::new();
    assert!(matches!(c.tick(&[], &listing(), "{}"), Ok(ConnectionAction::Close)));
}

#[test]
fn legacy_ping_before_1_4() {
    let mut c = Connection::new();
    let l = plain_listing("Minestodon");
    assert!(matches!(c.tick(&[0xFE], &l, "{}"), Ok(ConnectionAction::Close)));
    let out = c.take_outbox();
    let text = "Minestodon\u{a7}0\u{a7}1";
    let mut expected = vec![0xFF, 0x00, 14];
    for u in text.encode_utf16() {
        expected.extend(u.to_be_bytes());
    }
    assert_eq!(out, expected);
}

#[test]
fn legacy_ping_1_4_to_1_6() {
    let mut c = Connection::new();
    let l = plain_listing("Minestodon");
    assert!(matches!(c.tick(&[0xFE, 0x01, 0xFA], &l, "{}"), Ok(ConnectionAction::Close)));
    let out = c.take_outbox();
    let text = "\u{a7}1\u{0}761\u{0}Minestodon 1.19.3\u{0}Minestodon\u{0}0\u{0}1";
    assert_eq!(legacy_response_string(false, &l), text);
    let expected = legacy_response(text).unwrap();
    assert_eq!(out, expected);
    assert_eq!(out[0], 0xFF);
    assert_eq!(u16::from_be_bytes([out[1], out[2]]) as usize, text.encode_utf16().count());
}

#[test]
fn legacy_response_counts_surrogate_pairs() {
    let out = legacy_response("a🎮").unwrap();
    assert_eq!(out, vec![0xFF, 0x00, 0x03, 0x00, b'a', 0xD8, 0x3C, 0xDF, 0xAE]);
}

#[test]
fn login_with_compression_handoff() {
    let mut c = Connection::new();
    let mut input = handshake(2);
    input.extend(frame(&[0x00, 0x05, b'N', b'o', b't', b'c', b'h', 0x00]));
    let action = c.tick(&input, &listing(), "{}").unwrap();
    let username = match action {
        ConnectionAction::CreatePlayer { username } => username,
        _ => panic!("expected a player"),
    };
    assert_eq!(username, "Notch");
    assert!(c.take_outbox().is_empty());
    let nbt = init().to_document().unwrap();
    let uuid = Uuid::from_u64_pair(1, 2);
    c.finish_joining(uuid, &username, 7, &nbt).unwrap();
    assert_eq!(c.state(), ConnectionState::Play);
    assert!(c.compressed());
    assert_eq!(c.uuid(), Some(uuid));
    let out = c.take_outbox();
    assert_eq!(&out[..4], &[0x03, 0x03, 0x80, 0x02]);
    let b = bodies(&out[4..]);
    assert_eq!(b.len(), 3);
    let success = unpack_body(&b[0], true).unwrap();
    assert_eq!(b[0][0], 0x00);
    assert_eq!(success[0], 0x02);
    assert_eq!(&success[17..23], &[0x05, b'N', b'o', b't', b'c', b'h']);
    assert_eq!(success[23], 0x00);
    let login = unpack_body(&b[1], true).unwrap();
    assert_eq!(login[0], 0x24);
    assert_eq!(&login[1..5], &[0, 0, 0, 7]);
    let brand = unpack_body(&b[2], true).unwrap();
    let mut expected = vec![0x15, 15];
    expected.extend(b"minecraft:brand");
    expected.push(10);
    expected.extend(b"Minestodon");
    assert_eq!(brand, expected);
}

#[test]
fn kicks_only_in_login() {
    let mut c = Connection::new();
    assert_eq!(c.send_kick("{}"), Err(ProtocolError::KickNotAllowedInState));
    c.tick(&handshake(2), &listing(), "{}").unwrap();
    c.send_kick("{\"text\":\"bye\"}").unwrap();
    let out = c.take_outbox();
    assert_eq!(out[1], 0x00);
    assert_eq!(&out[3..], b"{\"text\":\"bye\"}");
}

#[test]
fn error_kick_text_has_three_parts() {
    let t = error_kick_reason("boom".to_string());
    let plain = t.to_plain_string();
    assert!(plain.starts_with("Minestodon Error\n\nboom\n\nThis is probably not your fault!"));
    assert!(t.to_legacy_string().starts_with("\u{a7}c\u{a7}nMinestodon Error"));
}

#[test]
fn entity_ids_count_up_and_wrap() {
    let mut s = ServerContext::new();
    assert_eq!(s.next_entity_id(), 0);
    assert_eq!(s.next_entity_id(), 1);
    assert!(ShouldClose::True.is_true());
    assert!(!ShouldClose::False.is_true());
}

#[test]
fn block_position_packing() {
    let mut buf = vec![];
    minestodon::codec::write_block_pos(&mut buf, &BlockPos { x: -1, y: 2, z: 3 });
    let v = u64::from_be_bytes(buf.try_into().unwrap());
    assert_eq!(v >> 38, 0x3FF_FFFF);
    assert_eq!((v >> 12) & 0x3FF_FFFF, 3);
    assert_eq!(v & 0xFFF, 2);
}

#[test]
fn registries_document_starts_with_root_compound() {
    let regs = init();
    let doc = regs.to_document().unwrap();
    assert_eq!(&doc[..3], &[0x0A, 0x00, 0x00]);
    assert_eq!(regs.biome.len(), 2);
    assert_eq!(regs.dimension_type.len(), 1);
    let needle = b"minestodon:tootlands";
    assert!(doc.windows(needle.len()).any(|w| w == needle));
}

#[test]
fn play_packets_are_unknown() {
    let mut c = Connection::new();
    let mut input = handshake(2);
    input.extend(frame(&[0x00, 0x05, b'N', b'o', b't', b'c', b'h', 0x00]));
    c.tick(&input, &listing(), "{}").unwrap();
    c.finish_joining(Uuid::from_u64_pair(1, 2), "Notch", 0, &[0x0A, 0, 0, 0]).unwrap();
    let before = c.take_outbox();
    assert!(!before.is_empty());
    let err = c.tick(&frame_packet(&[0x12, 0x00], true).unwrap(), &listing(), "{}");
    assert!(matches!(
        err,
        Err(ProtocolError::UnknownPacketId { state: ConnectionState::Play, id: 0x12 })
    ));
    assert!(c.take_outbox().is_empty());
}

#[test]
fn unknown_status_id_leaves_connection_unchanged() {
    let mut c = Connection::new();
    c.tick(&handshake(1), &listing(), "{}").unwrap();
    let r = c.tick(&frame(&[0x05]), &listing(), "{}");
    assert!(matches!(r, Err(ProtocolError::UnknownPacketId { state: ConnectionState::Status, id: 5 })));
    assert_eq!(c.state(), ConnectionState::Status);
    assert!(c.take_outbox().is_empty());
}

#[test]
fn set_up_sends_login_then_brand() {
    let mut c = Connection::new();
    c.set_up(9, &[0xAB]).unwrap();
    let b = bodies(&c.take_outbox());
    assert_eq!(b.len(), 2);
    assert_eq!(&b[0][..8], &[0x24, 0, 0, 0, 9, 0, 2, 0xFF]);
    assert_eq!(b[0][8], 1);
    assert_eq!(b[0][9] as usize, "minestodon:world".len());
    assert_eq!(b[0][10 + 16], 0xAB);
    let mut brand = vec![0x15, 15];
    brand.extend(b"minecraft:brand");
    brand.push(10);
    brand.extend(b"Minestodon");
    assert_eq!(b[1], brand);
}

#[test]
fn kick_in_login_is_sent_compressed_or_not() {
    let mut c = Connection::new();
    c.tick(&handshake(2), &listing(), "{}").unwrap();
    c.send_kick("{}").unwrap();
    assert_eq!(c.take_outbox(), vec![0x04, 0x00, 0x02, b'{', b'}']);
}
