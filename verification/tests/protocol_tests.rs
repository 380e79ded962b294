use render3d::protocol::{frame_body_len, READ_BUFFER_SIZE, ByteCursor, Packet, ProtocolError, read_string, read_u32, read_u64, read_i32, write_string};

#[test]
fn test_position_roundtrip() {
    let packet = Packet::Position {
        player_id: 12345,
        x: 1.5f32.to_bits(),
        y: 64.0f32.to_bits(),
        z: (-3.25f32).to_bits(),
    };

    let bytes = packet.to_bytes();
    let decoded = Packet::from_bytes(&bytes).unwrap();

    if let Packet::Position { player_id, x, y, z } = decoded {
        assert_eq!(player_id, 12345);
        assert_eq!(f32::from_bits(x), 1.5);
        assert_eq!(f32::from_bits(y), 64.0);
        assert_eq!(f32::from_bits(z), -3.25);
    } else {
        panic!("Wrong packet type");
    }
}

fn roundtrip(p: &Packet) -> Packet {
    Packet::from_bytes(&p.to_bytes()).unwrap()
}

#[test]
fn connect_encoding_is_exact() {
    let p = Packet::Connect { player_id: 7, username: "Ab".to_string() };
    assert_eq!(p.to_bytes(), vec![9, 0, 0x01, 7, 0, 0, 0, 2, 0, b'A', b'b']);
    match roundtrip(&p) {
        Packet::Connect { player_id, username } => {
            assert_eq!(player_id, 7);
            assert_eq!(username, "Ab");
        }
        _ => panic!("wrong kind"),
    }
}

#[test]
fn every_kind_roundtrips() {
    let packets = vec![
        Packet::ConnectAck { success: true, player_id: 3 },
        Packet::ConnectAck { success: false, player_id: 4 },
        Packet::Rotation { player_id: 9, yaw: 200, pitch: 17 },
        Packet::BlockChange { x: -5, y: 70, z: i32::MIN, block_type: 3 },
        Packet::Chat { player_id: 1, message: "héllo ✓".to_string() },
        Packet::Disconnect { player_id: 42 },
        Packet::Ping { timestamp: u64::MAX },
        Packet::Pong { timestamp: 123456789 },
    ];
    for p in &packets {
        let q = roundtrip(p);
        assert_eq!(format!("{:?}", p), format!("{:?}", q));
    }
}

#[test]
fn ping_bytes_are_little_endian() {
    let p = Packet::Ping { timestamp: 0x0102030405060708 };
    assert_eq!(p.to_bytes(), vec![9, 0, 0xFE, 8, 7, 6, 5, 4, 3, 2, 1]);
    assert_eq!(p.packet_id(), 0xFE);
}

#[test]
fn short_frame_is_rejected() {
    assert_eq!(Packet::from_bytes(&[1, 0]).unwrap_err(), ProtocolError::PacketTooShort);
}

#[test]
fn unknown_id_is_rejected() {
    assert_eq!(Packet::from_bytes(&[1, 0, 0x77]).unwrap_err(), ProtocolError::UnknownPacketId);
}

#[test]
fn truncated_field_is_eof() {
    assert_eq!(Packet::from_bytes(&[3, 0, 0x40, 1, 2]).unwrap_err(), ProtocolError::UnexpectedEof);
    assert_eq!(Packet::from_bytes(&[5, 0, 0x10, 1, 0, 0, 0]).unwrap_err(), ProtocolError::UnexpectedEof);
}

#[test]
fn invalid_utf8_is_rejected() {
    let bytes = [0, 0, 0x30, 1, 0, 0, 0, 1, 0, 0xFF];
    assert_eq!(Packet::from_bytes(&bytes).unwrap_err(), ProtocolError::InvalidUtf8);
}

#[test]
fn trailing_bytes_and_length_prefix_are_ignored() {
    let bytes = [0xAA, 0xBB, 0x40, 5, 0, 0, 0, 9, 9];
    match Packet::from_bytes(&bytes).unwrap() {
        Packet::Disconnect { player_id } => assert_eq!(player_id, 5),
        _ => panic!("wrong kind"),
    }
}

#[test]
fn readers_advance_the_cursor() {
    let data = [1u8, 0, 0, 0, 0xFF, 0xFF, 0xFF, 0xFF, 2, 0, 0, 0, 0, 0, 0, 0, 2, 0, b'o', b'k'];
    let mut c = ByteCursor::new(&data);
    assert_eq!(read_u32(&mut c), Ok(1));
    assert_eq!(read_i32(&mut c), Ok(-1));
    assert_eq!(read_u64(&mut c), Ok(2));
    assert_eq!(read_string(&mut c).unwrap(), "ok");
    assert_eq!(read_u32(&mut c), Err(ProtocolError::UnexpectedEof));
}

#[test]
fn write_string_prefixes_byte_length() {
    let mut buf = vec![9u8];
    write_string(&mut buf, "é");
    assert_eq!(buf, vec![9, 2, 0, 0xC3, 0xA9]);
}

#[test]
fn frame_length_limit() {
    assert_eq!(frame_body_len(&[0x00, 0x10]), Ok(4096));
    assert_eq!(READ_BUFFER_SIZE, 4096);
    assert_eq!(frame_body_len(&[0x01, 0x10]), Err(ProtocolError::PacketTooLarge));
}
