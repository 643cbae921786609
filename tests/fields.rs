use minestodon::codec::{write_block_pos, BlockPos, PacketReader};
use minestodon::error::ProtocolError;
use minestodon::nbt::Nbt;
use minestodon::packets::{Handshake, LegacyPingRequest, LoginStart, NextState, PacketFromServer, PlayLogin, GameMode};
use minestodon::identifier::Identifier;

#[test]
fn block_position_round_trip() {
    for p in [
        BlockPos { x: -1, y: -1, z: -1 },
        BlockPos { x: 33_554_431, y: 2047, z: -33_554_432 },
        BlockPos { x: 0, y: -2048, z: 12345 },
    ] {
        let mut buf = vec![];
        write_block_pos(&mut buf, &p);
        assert_eq!(PacketReader::new(&buf).read_block_pos(), Ok(p));
    }
}

#[test]
fn handshake_rejects_other_next_states() {
    let bytes = [0xF9, 0x05, 0x01, b'x', 0x63, 0xDD, 0x03];
    assert!(matches!(
        Handshake::read(&mut PacketReader::new(&bytes)),
        Err(ProtocolError::InvalidHandshakeNextState)
    ));
    let bytes = [0xF9, 0x05, 0x01, b'x', 0x63, 0xDD, 0x02];
    let h = Handshake::read(&mut PacketReader::new(&bytes)).unwrap();
    assert_eq!(h.version, 761);
    assert_eq!(h.server_addr, "x");
    assert_eq!(h.server_port, 25565);
    assert_eq!(h.next_state, NextState::Login);
}

#[test]
fn legacy_ping_request_checks_its_bytes() {
    assert!(LegacyPingRequest::read(&mut PacketReader::new(&[0x01, 0xFA])).is_ok());
    assert!(matches!(
        LegacyPingRequest::read(&mut PacketReader::new(&[0x01, 0xFB])),
        Err(ProtocolError::InvalidLegacyPing)
    ));
}

#[test]
fn login_start_layouts() {
    // The older layout: a signature block before the UUID flag.
    let mut bytes = vec![0x02, b'a', b'b', 0x01];
    bytes.extend(5i64.to_be_bytes());
    bytes.extend([0x02, 0xAA, 0xBB, 0x01, 0xCC]);
    bytes.push(0x01);
    bytes.extend([0u8; 15]);
    bytes.push(0x09);
    let l = LoginStart::read(&mut PacketReader::new(&bytes), 760).unwrap();
    assert_eq!(l.name, "ab");
    assert_eq!(l.uuid.unwrap().as_u64_pair(), (0, 9));
    // The newer layout: the UUID flag right after the name.
    let l = LoginStart::read(&mut PacketReader::new(&[0x02, b'a', b'b', 0x00]), 761).unwrap();
    assert!(l.uuid.is_none());
    assert!(matches!(
        LoginStart::read(&mut PacketReader::new(&[0x02, b'a', b'b']), 761),
        Err(ProtocolError::UnexpectedEnd)
    ));
}

#[test]
fn nbt_encoding() {
    let t = Nbt::Compound(vec![
        ("a".to_string(), Nbt::Byte(-1)),
        ("l".to_string(), Nbt::List(vec![Nbt::Int(1), Nbt::Int(2)])),
        ("f".to_string(), Nbt::Float(0x3F80_0000)),
    ]);
    let doc = t.to_document().unwrap();
    let mut expected = vec![0x0A, 0x00, 0x00];
    expected.extend([0x01, 0x00, 0x01, b'a', 0xFF]);
    expected.extend([0x09, 0x00, 0x01, b'l', 0x03, 0, 0, 0, 2, 0, 0, 0, 1, 0, 0, 0, 2]);
    expected.extend([0x05, 0x00, 0x01, b'f', 0x3F, 0x80, 0x00, 0x00]);
    expected.push(0x00);
    assert_eq!(doc, expected);
    let mixed = Nbt::Compound(vec![("m".to_string(), Nbt::List(vec![Nbt::Int(1), Nbt::Byte(2)]))]);
    assert_eq!(mixed.to_document(), Err(ProtocolError::LengthOverflow));
}

#[test]
fn play_login_layout() {
    let login = PlayLogin {
        entity_id: 1,
        hardcore: true,
        game_mode: GameMode::Creative,
        last_game_mode: None,
        worlds: vec![Identifier::minestodon("world")],
        registries_nbt: vec![0xAB],
        dimension_type: Identifier::minestodon("d"),
        world: Identifier::minestodon("world"),
        hashed_seed: -1,
        max_players: 300,
        view_distance: 2,
        simulation_distance: 3,
        reduced_debug_info: false,
        respawn_screen: true,
        debug_mode: false,
        flat_world: true,
        death_pos: None,
    };
    let mut buf = vec![];
    login.write(&mut buf).unwrap();
    assert_eq!(PlayLogin::id(), 0x24);
    assert_eq!(&buf[..7], &[0, 0, 0, 1, 1, 1, 0xFF]);
    assert_eq!(buf[7], 1);
    assert_eq!(buf[8] as usize, "minestodon:world".len());
    let after_worlds = 9 + 16;
    assert_eq!(buf[after_worlds], 0xAB);
    assert_eq!(&buf[buf.len() - 5..], &[0, 1, 0, 1, 0]);
}

#[test]
fn nbt_strings_use_modified_utf8() {
    let t = Nbt::Compound(vec![("s".to_string(), Nbt::String("a\u{0}\u{1F3AE}".to_string()))]);
    let doc = t.to_document().unwrap();
    let mut expected = vec![0x0A, 0x00, 0x00, 0x08, 0x00, 0x01, b's', 0x00, 0x09, b'a', 0xC0, 0x80];
    expected.extend([0xED, 0xA0, 0xBC, 0xED, 0xBE, 0xAE]);
    expected.push(0x00);
    assert_eq!(doc, expected);
}
