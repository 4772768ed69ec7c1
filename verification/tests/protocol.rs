use steven::protocol::varint::{VarInt, VarLong};
use steven::protocol::prefixed::{LenPrefixed, LenPrefixedBytes};
use steven::protocol::packet::{BlockChangeRecord, PlayerDetail, PlayerInfoData, Statistic};
use steven::protocol::uuid::UUID;
use steven::protocol::{Direction, Error, IoErrorKind, Serializable, State};
use steven::protocol::packet::Handshake;
use steven::protocol::status::{body_read_aborts, packet_body, read_packet_body, Packet, StatusPing, StatusPong, StatusRequest};
use steven::protocol::login::{login_handshake, login_step, EncryptionRequest, EncryptionResponse, LoginDisconnect, LoginStart, LoginStep, SetInitialCompression};
use steven::shared::Position;
use steven::server::on_plugin_message;
use steven::protocol::address::{parse_port, split_target};
use steven::server::plugin_messages::ForgeMod;

fn write<T: Serializable>(v: &T) -> Vec<u8> {
    let mut out = Vec::new();
    v.write_to(&mut out).unwrap();
    out
}

#[test]
fn varint_encodings() {
    assert_eq!(write(&VarInt(0)), vec![0x00]);
    assert_eq!(write(&VarInt(1)), vec![0x01]);
    assert_eq!(write(&VarInt(127)), vec![0x7f]);
    assert_eq!(write(&VarInt(128)), vec![0x80, 0x01]);
    assert_eq!(write(&VarInt(300)), vec![0xac, 0x02]);
    assert_eq!(write(&VarInt(2147483647)), vec![0xff, 0xff, 0xff, 0xff, 0x07]);
    assert_eq!(write(&VarInt(-1)), vec![0xff, 0xff, 0xff, 0xff, 0x0f]);
    assert_eq!(write(&VarLong(-1)), vec![0xff, 0xff, 0xff, 0xff, 0xff, 0xff, 0xff, 0xff, 0xff, 0x01]);
}

#[test]
fn varint_round_trip_and_errors() {
    for v in [0i32, 1, 127, 128, 255, 25565, -1, i32::MIN, i32::MAX].iter() {
        let bytes = write(&VarInt(*v));
        let (r, end) = VarInt::read_from(&bytes, 0).unwrap();
        assert_eq!(r.0, *v);
        assert_eq!(end, bytes.len());
    }
    match VarInt::read_from(&[0x80, 0x80], 0) {
        Err(Error::IOError(IoErrorKind::UnexpectedEof)) => {}
        _ => panic!("expected end of input"),
    }
    match VarInt::read_from(&[0x80, 0x80, 0x80, 0x80, 0x80, 0x01], 0) {
        Err(Error::Message(m)) => assert_eq!(m, "VarInt too big"),
        _ => panic!("expected too big"),
    }
    for v in [0i64, 1, -1, i64::MIN, i64::MAX, 1 << 40].iter() {
        let bytes = write(&VarLong(*v));
        let (r, end) = VarLong::read_from(&bytes, 0).unwrap();
        assert_eq!(r.0, *v);
        assert_eq!(end, bytes.len());
    }
}

#[test]
fn integers_are_big_endian() {
    assert_eq!(write(&0x1234u16), vec![0x12, 0x34]);
    assert_eq!(write(&-2i16), vec![0xff, 0xfe]);
    assert_eq!(write(&0x01020304i32), vec![1, 2, 3, 4]);
    assert_eq!(write(&-1i64), vec![0xff; 8]);
    let (v, end) = i32::read_from(&[0, 0, 1, 0, 9], 1).unwrap();
    assert_eq!((v, end), (0x00010009, 5));
    assert!(u64::read_from(&[1, 2, 3], 0).is_err());
    assert_eq!(write(&true), vec![1]);
    let (b, _) = bool::read_from(&[7], 0).unwrap();
    assert!(b);
}

#[test]
fn strings_are_length_prefixed_utf8() {
    let s = "héllo".to_owned();
    let bytes = write(&s);
    assert_eq!(bytes, vec![6, b'h', 0xc3, 0xa9, b'l', b'l', b'o']);
    let (r, end) = String::read_from(&bytes, 0).unwrap();
    assert_eq!(r, "héllo");
    assert_eq!(end, 7);
    // a short input gives what is there
    let (r, end) = String::read_from(&[5, b'a', b'b'], 0).unwrap();
    assert_eq!((r.as_str(), end), ("ab", 3));
    match String::read_from(&[2, 0xff, 0xfe], 0) {
        Err(Error::IOError(IoErrorKind::InvalidData)) => {}
        _ => panic!("expected invalid data"),
    }
}

#[test]
fn uuid_parse_and_encode() {
    let u = UUID::from_str("4566e69f-c907-48ee-8d71-d7ba5aa00d20");
    let bytes = write(&u);
    assert_eq!(bytes, vec![0x45, 0x66, 0xe6, 0x9f, 0xc9, 0x07, 0x48, 0xee, 0x8d, 0x71, 0xd7, 0xba, 0x5a, 0xa0, 0x0d, 0x20]);
    let (r, end) = UUID::read_from(&bytes, 0).unwrap();
    assert_eq!(r, u);
    assert_eq!(end, 16);
}

#[test]
fn position_packing() {
    let p = Position::new(-3, 70, 12345);
    let bytes = write(&p);
    let (r, _) = Position::read_from(&bytes, 0).unwrap();
    assert_eq!(r, p);
    let (r, _) = Position::read_from(&[0, 0, 0, 0, 0, 0, 0, 0], 0).unwrap();
    assert_eq!(r, Position::new(0, 0, 0));
}

#[test]
fn prefixed_lists() {
    let l: LenPrefixed<VarInt, String> = LenPrefixed::new(vec!["a".to_owned(), "bc".to_owned()]);
    let bytes = write(&l);
    assert_eq!(bytes, vec![2, 1, b'a', 2, b'b', b'c']);
    let (r, end) = LenPrefixed::<VarInt, String>::read_from(&bytes, 0).unwrap();
    assert_eq!(r.data, vec!["a".to_owned(), "bc".to_owned()]);
    assert_eq!(end, 6);
    assert!(LenPrefixed::<VarInt, String>::read_from(&[3, 1, b'a'], 0).is_err());
    let b: LenPrefixedBytes<i16> = LenPrefixedBytes::new(vec![9, 8, 7]);
    let bytes = write(&b);
    assert_eq!(bytes, vec![0, 3, 9, 8, 7]);
    let (r, end) = LenPrefixedBytes::<i16>::read_from(&[0, 5, 1, 2], 0).unwrap();
    assert_eq!((r.data, end), (vec![1, 2], 4));
}

#[test]
fn records() {
    let s = Statistic { name: "kills".to_owned(), value: VarInt(300) };
    let bytes = write(&s);
    let (r, _) = Statistic::read_from(&bytes, 0).unwrap();
    assert_eq!(r.name, "kills");
    assert_eq!(r.value.0, 300);
    let (b, end) = BlockChangeRecord::read_from(&[0x12, 64, 0x80, 0x01], 0).unwrap();
    assert_eq!((b.xz, b.y, b.block_id.0, end), (0x12, 64, 128, 4));
}

#[test]
fn player_info_remove_and_latency() {
    let mut bytes = vec![4, 1];
    bytes.extend_from_slice(&[0u8; 16]);
    let (info, end) = PlayerInfoData::read_from(&bytes, 0).unwrap();
    assert_eq!(end, 18);
    assert_eq!(info.action.0, 4);
    match &info.players[0] {
        PlayerDetail::Remove { uuid } => assert_eq!(*uuid, UUID::default()),
        _ => panic!("wrong detail"),
    }
    let mut bytes = vec![2, 1];
    bytes.extend_from_slice(&[0u8; 16]);
    bytes.push(42);
    let (info, _) = PlayerInfoData::read_from(&bytes, 0).unwrap();
    match &info.players[0] {
        PlayerDetail::UpdateLatency { ping, .. } => assert_eq!(ping.0, 42),
        _ => panic!("wrong detail"),
    }
}

#[test]
fn player_info_add() {
    let mut bytes = vec![0, 1];
    bytes.extend_from_slice(&[1u8; 16]);
    bytes.extend_from_slice(&[3, b'b', b'o', b'b']);
    bytes.push(1);
    bytes.extend_from_slice(&[8, b't', b'e', b'x', b't', b'u', b'r', b'e', b's']);
    bytes.extend_from_slice(&[1, b'v']);
    bytes.push(0);
    bytes.extend_from_slice(&[1, 20, 0]);
    let (info, end) = PlayerInfoData::read_from(&bytes, 0).unwrap();
    assert_eq!(end, bytes.len());
    match &info.players[0] {
        PlayerDetail::Add { name, properties, gamemode, ping, display, .. } => {
            assert_eq!(name, "bob");
            assert_eq!(properties.len(), 1);
            assert_eq!(properties[0].name, "textures");
            assert_eq!(properties[0].signature, None);
            assert_eq!((gamemode.0, ping.0), (1, 20));
            assert_eq!(*display, None);
        }
        _ => panic!("wrong detail"),
    }
}

#[test]
fn status_packets_framed_and_read() {
    assert_eq!(packet_body(StatusPing { ping: 42 }), vec![1, 0, 0, 0, 0, 0, 0, 0, 42]);
    assert_eq!(packet_body(StatusRequest { empty: () }), vec![0]);
    match read_packet_body(State::Status, Direction::Clientbound, &[0x00, 0x02, b'h', b'i']) {
        Ok(Packet::StatusResponse(r)) => assert_eq!(r.status, "hi"),
        _ => panic!("expected a status response"),
    }
    match read_packet_body(State::Status, Direction::Clientbound, &[0x01, 0, 0, 0, 0, 0, 0, 1, 0]) {
        Ok(Packet::StatusPong(p)) => assert_eq!(p.ping, 256),
        _ => panic!("expected a pong"),
    }
    match read_packet_body(State::Status, Direction::Clientbound, &[0x05]) {
        Err(Error::Message(m)) => assert_eq!(m, "missing packet"),
        _ => panic!("expected a missing packet"),
    }
    match read_packet_body(State::Status, Direction::Clientbound, &[0x00, 0x01, b'x', 0xff]) {
        Err(Error::Message(m)) => assert_eq!(m, "Failed to read all of packet 0x0, had 1 bytes left"),
        _ => panic!("expected leftover bytes"),
    }
    let h = Handshake { protocol_version: VarInt(109), host: "localhost".to_owned(), port: 25565, next: VarInt(1) };
    let body = packet_body(h);
    match read_packet_body(State::Handshaking, Direction::Serverbound, &body) {
        Ok(Packet::Handshake(h)) => {
            assert_eq!(h.host, "localhost");
            assert_eq!(h.port, 25565);
            assert_eq!(h.next.0, 1);
            assert_eq!(h.protocol_version.0, 109);
        },
        _ => panic!("expected a handshake"),
    }
}

fn string_bytes(s: &str) -> Vec<u8> {
    let mut v = vec![s.len() as u8];
    v.extend_from_slice(s.as_bytes());
    v
}

#[test]
fn forge_server_hello_is_answered_with_channels_hello_and_mods() {
    let mods = vec![ForgeMod { modid: "forge".to_string(), version: "1.0".to_string() }];
    let r = on_plugin_message("FML|HS", &[0, 1], &mods);
    assert_eq!(r.messages.len(), 3);
    assert_eq!(r.messages[0].0, "REGISTER");
    assert_eq!(r.messages[0].1, b"FML|HS\0FML\0FML|MP\0FML\0FORGE".to_vec());
    assert_eq!(r.messages[1], ("FML|HS".to_string(), vec![1, 1]));
    let mut list = vec![2, 1];
    list.extend(string_bytes("forge"));
    list.extend(string_bytes("1.0"));
    assert_eq!(r.messages[2], ("FML|HS".to_string(), list));
    assert!(r.block_ids.is_empty());
}

#[test]
fn forge_mod_list_is_acknowledged() {
    let r = on_plugin_message("FML|HS", &[2, 0], &[]);
    assert_eq!(r.messages, vec![("FML|HS".to_string(), vec![255, 2])]);
}

#[test]
fn forge_block_registry_gives_block_ids() {
    let mut data = vec![3, 0];
    data.extend(string_bytes("minecraft:blocks"));
    data.push(1);
    data.extend(string_bytes("mod:block"));
    data.extend([0xAC, 0x02]);
    data.extend([0, 0]);
    let r = on_plugin_message("FML|HS", &data, &[]);
    assert_eq!(r.block_ids, vec![(300, "mod:block".to_string())]);
    assert_eq!(r.messages, vec![("FML|HS".to_string(), vec![255, 3])]);
    data[1] = 1;
    let r = on_plugin_message("FML|HS", &data, &[]);
    assert_eq!(r.block_ids, vec![(300, "mod:block".to_string())]);
    assert!(r.messages.is_empty());
}

#[test]
fn other_plugin_channels_are_ignored() {
    let r = on_plugin_message("REGISTER", &[1, 2, 3], &[]);
    assert!(r.messages.is_empty());
    assert!(r.block_ids.is_empty());
}

#[test]
fn login_packets_are_read_from_their_bodies() {
    match read_packet_body(State::Login, Direction::Clientbound, &[0x03, 0x80, 0x02]) {
        Ok(Packet::SetInitialCompression(p)) => assert_eq!(p.threshold.0, 256),
        _ => panic!("expected a compression threshold"),
    }
    match read_packet_body(State::Login, Direction::Clientbound, &[0x02, 0x01, b'u', 0x02, b'h', b'i']) {
        Ok(Packet::LoginSuccess(p)) => {
            assert_eq!(p.uuid, "u");
            assert_eq!(p.username, "hi");
        },
        _ => panic!("expected a login success"),
    }
    match read_packet_body(State::Login, Direction::Clientbound, &[0x01, 0x00, 0x02, 7, 8, 0x01, 9]) {
        Ok(Packet::EncryptionRequest(p)) => {
            assert_eq!(p.server_id, "");
            assert_eq!(p.public_key.data, vec![7, 8]);
            assert_eq!(p.verify_token.data, vec![9]);
        },
        _ => panic!("expected an encryption request"),
    }
}

#[test]
fn login_packets_with_negative_key_lengths_abort() {
    let body = [0x01, 0x00, 0xff, 0xff, 0xff, 0xff, 0x0f];
    assert!(body_read_aborts(State::Login, Direction::Clientbound, &body));
    assert!(!body_read_aborts(State::Login, Direction::Clientbound, &[0x01, 0x00, 0x02, 7, 8, 0x01, 9]));
    assert!(!body_read_aborts(State::Status, Direction::Clientbound, &body));
}

#[test]
fn login_start_and_encryption_response_bodies() {
    assert_eq!(packet_body(LoginStart { username: "ab".to_string() }), vec![0x00, 0x02, b'a', b'b']);
    let resp = EncryptionResponse {
        shared_secret: LenPrefixedBytes::new(vec![1, 2]),
        verify_token: LenPrefixedBytes::new(vec![3]),
    };
    assert_eq!(packet_body(resp), vec![0x01, 0x02, 1, 2, 0x01, 3]);
}

#[test]
fn login_steps_follow_the_packets() {
    match login_step(false, Packet::SetInitialCompression(SetInitialCompression { threshold: VarInt(64) })) {
        Ok(LoginStep::SetCompression(64)) => {},
        _ => panic!("expected compression"),
    }
    let req = || EncryptionRequest {
        server_id: "s".to_string(),
        public_key: LenPrefixedBytes::new(vec![1]),
        verify_token: LenPrefixedBytes::new(vec![2]),
    };
    match login_step(false, Packet::EncryptionRequest(req())) {
        Ok(LoginStep::Encrypt { server_id, public_key, verify_token }) => {
            assert_eq!(server_id, "s");
            assert_eq!(public_key, vec![1]);
            assert_eq!(verify_token, vec![2]);
        },
        _ => panic!("expected encryption"),
    }
    match login_step(true, Packet::EncryptionRequest(req())) {
        Err(Error::Message(m)) => assert_eq!(m, "Wrong packet: EncryptionRequest"),
        _ => panic!("expected an error"),
    }
    match login_step(true, Packet::StatusPong(StatusPong { ping: 1 })) {
        Err(Error::Message(m)) => assert_eq!(m, "Wrong packet: StatusPong"),
        _ => panic!("expected an error"),
    }
    match login_step(true, Packet::LoginDisconnect(LoginDisconnect { reason: "\"bye\"".to_string() })) {
        Ok(LoginStep::Disconnected { reason }) => assert_eq!(reason, "\"bye\""),
        _ => panic!("expected a refusal"),
    }
}

#[test]
fn login_handshake_marks_forge_clients() {
    let h = login_handshake(340, "example.org", 25565, true);
    assert_eq!(h.host, "example.org\0FML\0");
    assert_eq!(h.next.0, 2);
    assert_eq!(login_handshake(340, "example.org", 25565, false).host, "example.org");
}

#[test]
fn targets_split_into_host_and_port() {
    assert_eq!(split_target("example.org"), ("example.org".to_string(), "25565".to_string()));
    assert_eq!(split_target("example.org:25570"), ("example.org".to_string(), "25570".to_string()));
    assert_eq!(split_target("a:1:2"), ("a".to_string(), "1".to_string()));
    assert_eq!(split_target(":"), ("".to_string(), "".to_string()));
}

#[test]
fn ports_parse_like_u16() {
    assert_eq!(parse_port("25565"), Some(25565));
    assert_eq!(parse_port("+80"), Some(80));
    assert_eq!(parse_port("65535"), Some(65535));
    assert_eq!(parse_port("65536"), None);
    assert_eq!(parse_port(""), None);
    assert_eq!(parse_port("+"), None);
    assert_eq!(parse_port("-1"), None);
    assert_eq!(parse_port("8o"), None);
    for text in ["0", "007", "123456789", "+0"] {
        assert_eq!(parse_port(text), text.parse::<u16>().ok());
    }
}

#[test]
fn read_errors_name_their_cause() {
    assert!(matches!(u16::read_from(&[1], 0), Err(Error::IOError(IoErrorKind::UnexpectedEof))));
    assert!(matches!(i64::read_from(&[1, 2, 3], 0), Err(Error::IOError(IoErrorKind::UnexpectedEof))));
    assert!(matches!(String::read_from(&[2, 0xff, 0xfe], 0), Err(Error::IOError(IoErrorKind::InvalidData))));
    assert!(matches!(String::read_from(&[0x80], 0), Err(Error::IOError(IoErrorKind::UnexpectedEof))));
}
