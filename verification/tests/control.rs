use mumbot::handshake::{
    authenticate_packet, bot_name_from, bot_packet, bot_packet_from, lyric_packet, version_packet,
};
use mumbot::mumble::{packet, parse_session, Awaiting, CryptSetup, Message, Packet, Ping};
use mumbot::session::Session;
use mumbot::tcp::{tcp_ping, tcp_ping_at, tcp_recv, tcp_recv_loop, try_tcp_recv_loop, TcpError, TcpState};
use mumbot::wire::WireError;

fn received(kind: u16, payload: &[u8]) -> Packet {
    Packet { kind, payload: payload.to_vec() }
}

#[test]
fn a_packet_is_framed() {
    assert_eq!(packet(0x0102, &[7, 8, 9]), vec![1, 2, 0, 0, 0, 3, 7, 8, 9]);
    assert_eq!(packet(3, &[]), vec![0, 3, 0, 0, 0, 0]);
}

#[test]
fn a_packet_is_read_part_by_part() {
    let bytes = packet(11, &[5; 300]);
    let mut awaiting = Awaiting::Kind;
    assert_eq!(awaiting.wanted(), 2);
    assert!(awaiting.receive(bytes[0..2].to_vec()).is_none());
    assert_eq!(awaiting, Awaiting::Length { kind: 11 });
    assert_eq!(awaiting.wanted(), 4);
    assert!(awaiting.receive(bytes[2..6].to_vec()).is_none());
    assert_eq!(awaiting, Awaiting::Payload { kind: 11, length: 300 });
    assert_eq!(awaiting.wanted(), 300);
    let got = awaiting.receive(bytes[6..].to_vec()).unwrap();
    assert_eq!(got.kind, 11);
    assert_eq!(got.payload, vec![5; 300]);
    assert_eq!(awaiting, Awaiting::Kind);
}

#[test]
fn packets_follow_each_other() {
    let mut stream = packet(3, &[]);
    stream.extend(packet(258, &[1, 2]));
    let mut awaiting = Awaiting::Kind;
    let mut got = Vec::new();
    let mut at = 0;
    while at + awaiting.wanted() <= stream.len() {
        let n = awaiting.wanted();
        if let Some(p) = awaiting.receive(stream[at..at + n].to_vec()) {
            got.push((p.kind, p.payload));
        }
        at += n;
    }
    assert_eq!(got, vec![(3, vec![]), (258, vec![1, 2])]);
}

#[test]
fn the_version_is_told() {
    let mut expected = vec![0, 0, 0, 0, 0, 49, 0x08, 0x84, 0x84, 0x04, 0x12, 18];
    expected.extend(b"1.2.4-0.2ubuntu1.1");
    expected.extend([0x1A, 3]);
    expected.extend(b"X11");
    expected.extend([0x22, 18]);
    expected.extend(b"Ubuntu 14.04.5 LTS");
    assert_eq!(version_packet(), expected);
}

#[test]
fn a_name_is_told() {
    let mut expected = vec![0, 2, 0, 0, 0, 9, 0x0A, 5];
    expected.extend(b"lyric");
    expected.extend([0x28, 1]);
    assert_eq!(lyric_packet(), expected);
    assert_eq!(authenticate_packet("lyric".to_string()), expected);
    assert_eq!(
        authenticate_packet("\u{e9}".to_string()),
        vec![0, 2, 0, 0, 0, 6, 0x0A, 2, 0xC3, 0xA9, 0x28, 1]
    );
}

#[test]
fn bots_have_numbers() {
    assert_eq!(bot_name_from(0), "mumbot-10000");
    assert_eq!(bot_name_from(55535), "mumbot-65535");
    assert_eq!(bot_name_from(55536), "mumbot-0");
    assert_eq!(bot_name_from(65535), "mumbot-9999");
    assert_eq!(bot_packet_from(1), authenticate_packet("mumbot-10001".to_string()));
    let any = bot_packet();
    assert_eq!(&any[0..2], &[0, 2]);
    assert_eq!(&any[8..15], b"mumbot-");
    let distinct: std::collections::HashSet<Vec<u8>> = (0..64).map(|_| bot_packet()).collect();
    assert!(distinct.len() > 1);
}

#[test]
fn a_sign_of_life_is_sent() {
    assert_eq!(tcp_ping_at(300), vec![0, 3, 0, 0, 0, 3, 0x08, 0xAC, 0x02]);
    assert_eq!(
        tcp_ping_at(u64::MAX),
        vec![
            0, 3, 0, 0, 0, 11, 0x08, 0xFF, 0xFF, 0xFF, 0xFF, 0xFF, 0xFF, 0xFF, 0xFF, 0xFF, 0x01
        ]
    );
    assert_eq!(Ping { timestamp: None }.write(), Vec::<u8>::new());
    let now = tcp_ping();
    assert_eq!(&now[0..7], &[0, 3, 0, 0, 0, 6, 0x08]);
    let mut seconds = 0u64;
    for (i, b) in now[7..].iter().enumerate() {
        seconds |= ((b & 0x7F) as u64) << (7 * i);
    }
    assert!(seconds > 1_400_000_000);
}

#[test]
fn a_session_is_read() {
    assert_eq!(parse_session(&[0x08, 5]), Ok(5));
    assert_eq!(parse_session(&[]), Ok(0));
    assert_eq!(parse_session(&[0x08, 5, 0x08, 6]), Ok(6));
    assert_eq!(parse_session(&[0x12, 1, 0x61, 0x08, 0x96, 0x01]), Ok(150));
    assert_eq!(
        parse_session(&[0x08, 0xFF, 0xFF, 0xFF, 0xFF, 0xFF, 0xFF, 0xFF, 0xFF, 0xFF, 0x01]),
        Ok(u32::MAX)
    );
    assert_eq!(parse_session(&[0x0A, 0]), Err(WireError::WireType));
    assert_eq!(parse_session(&[0x08]), Err(WireError::Malformed));
    assert_eq!(parse_session(&[0x12, 5, 1]), Err(WireError::Malformed));
    assert_eq!(parse_session(&[0x00, 0x00]), Err(WireError::Malformed));
}

#[test]
fn unknown_fields_are_passed_over() {
    let message = [
        0x11, 1, 2, 3, 4, 5, 6, 7, 8, // eight bytes
        0x1D, 1, 2, 3, 4, // four bytes
        0x22, 2, 9, 9, // two bytes with a length
        0x08, 7,
    ];
    assert_eq!(parse_session(&message), Ok(7));
}

#[test]
fn keys_are_read() {
    let setup = CryptSetup::parse(&[0x0A, 2, 1, 2, 0x12, 1, 3, 0x1A, 3, 4, 5, 6]).ok().unwrap();
    assert_eq!(setup.key, vec![1, 2]);
    assert_eq!(setup.client_nonce, vec![3]);
    assert_eq!(setup.server_nonce, vec![4, 5, 6]);
    let setup = CryptSetup::parse(&[]).ok().unwrap();
    assert!(setup.key.is_empty() && setup.client_nonce.is_empty() && setup.server_nonce.is_empty());
    assert_eq!(CryptSetup::parse(&[0x08, 1]).err(), Some(WireError::WireType));
    assert_eq!(CryptSetup::parse(&[0x10, 1]).err(), Some(WireError::WireType));
    assert_eq!(CryptSetup::parse(&[0x18, 1]).err(), Some(WireError::WireType));
    assert_eq!(CryptSetup::parse(&[0x0A, 2, 1]).err(), Some(WireError::Malformed));
}

#[test]
fn messages_are_told_apart() {
    for kind in [0, 3, 7, 8, 11, 20, 21, 24] {
        assert!(matches!(Message::parse(kind, &[0x08, 1]), Ok(Message::Plain)));
        assert!(matches!(Message::parse(kind, &[0x08]), Err(WireError::Malformed)));
    }
    assert!(matches!(Message::parse(5, &[0x08, 1]), Ok(Message::ServerSync { session: 1 })));
    assert!(matches!(Message::parse(9, &[0x08, 2]), Ok(Message::UserState { session: 2 })));
    assert!(matches!(Message::parse(15, &[]), Ok(Message::CryptSetup { .. })));
    assert!(matches!(Message::parse(4, &[0x08]), Ok(Message::Unknown)));
}

#[test]
fn the_control_channel_is_followed() {
    let mut session = Session::new();
    assert_eq!(session.local.id, 0);
    assert!(matches!(tcp_recv(&mut session, received(5, &[0x08, 42])), Ok(None)));
    assert_eq!(session.local.id, 42);
    assert!(matches!(tcp_recv(&mut session, received(9, &[0x08, 7])), Ok(None)));
    assert!(matches!(tcp_recv(&mut session, received(9, &[0x08, 8])), Ok(None)));
    assert!(matches!(tcp_recv(&mut session, received(9, &[0x08, 7])), Ok(None)));
    assert_eq!(session.remotes.len(), 2);
    assert_eq!(session.remotes[&7].id, 7);
    assert_eq!(session.remotes[&8].id, 8);
    let setup = tcp_recv(&mut session, received(15, &[0x0A, 1, 9])).ok().unwrap().unwrap();
    assert_eq!(setup.key, vec![9]);
    assert!(matches!(tcp_recv(&mut session, received(99, &[0xFF])), Ok(None)));
    assert_eq!(session.local.id, 42);
    assert_eq!(session.remotes.len(), 2);
}

#[test]
fn the_control_channel_refuses() {
    let mut session = Session::new();
    assert_eq!(tcp_recv(&mut session, received(1, &[])).err(), Some(TcpError::EmptyTunnel));
    assert_eq!(tcp_recv(&mut session, received(1, &[0x60])).err(), Some(TcpError::AudioType));
    assert!(matches!(tcp_recv(&mut session, received(1, &[0x9F])), Ok(None)));
    assert!(matches!(tcp_recv(&mut session, received(1, &[0x20])), Ok(None)));
    assert_eq!(
        tcp_recv(&mut session, received(5, &[0x08])).err(),
        Some(TcpError::Message(WireError::Malformed))
    );
    assert_eq!(
        tcp_recv(&mut session, received(9, &[0x0A, 0])).err(),
        Some(TcpError::Message(WireError::WireType))
    );
    assert_eq!(session.local.id, 0);
    assert!(session.remotes.is_empty());
}

#[test]
fn the_control_channel_is_read_in_parts() {
    let mut state = TcpState { awaiting: Awaiting::Kind, session: Session::new() };
    let mut stream = packet(5, &[0x08, 3]);
    stream.extend(packet(15, &[0x1A, 2, 6, 7]));
    let mut keys = Vec::new();
    let mut at = 0;
    while at < stream.len() {
        let n = state.awaiting.wanted();
        let part = stream[at..at + n].to_vec();
        if let Some(setup) = tcp_recv_loop(&mut state, part) {
            keys.push(setup.server_nonce);
        }
        at += n;
    }
    assert_eq!(keys, vec![vec![6, 7]]);
    assert_eq!(state.session.local.id, 3);
    assert_eq!(state.awaiting, Awaiting::Kind);
    assert!(matches!(try_tcp_recv_loop(&mut state, vec![0, 1]), Ok(None)));
    assert!(matches!(try_tcp_recv_loop(&mut state, vec![0, 0, 0, 1]), Ok(None)));
    assert_eq!(try_tcp_recv_loop(&mut state, vec![0x60]).err(), Some(TcpError::AudioType));
    assert_eq!(state.session.local.id, 3);
}

#[test]
fn users_are_made_known_once() {
    let mut session = Session::new();
    session.factory(3);
    session.factory(u64::MAX);
    session.factory(3);
    assert_eq!(session.remotes.len(), 2);
    assert_eq!(session.remotes[&u64::MAX].id, u64::MAX);
    assert_eq!(session.local.clone().id, 0);
}

#[test]
fn groups_are_passed_over() {
    // A group with two fields, and an empty one.
    assert_eq!(parse_session(&[0x13, 0x08, 9, 0x22, 1, 5, 0x14, 0x08, 7]), Ok(7));
    assert_eq!(parse_session(&[0x13, 0x14, 0x08, 7]), Ok(7));
    // Whatever tag ends a group, it ends.
    assert_eq!(parse_session(&[0x13, 0x1C, 0x08, 7]), Ok(7));
    assert_eq!(parse_session(&[0x08, 7, 0x13, 0x14]), Ok(7));
}

#[test]
fn broken_groups_are_refused() {
    // A group in a group, an end without a start, and a start without an end.
    assert_eq!(parse_session(&[0x13, 0x1B, 0x1C, 0x14, 0x08, 7]), Err(WireError::Malformed));
    assert_eq!(parse_session(&[0x14, 0x08, 7]), Err(WireError::Malformed));
    assert_eq!(parse_session(&[0x13, 0x08, 7]), Err(WireError::Malformed));
    // A group where a number is expected.
    assert_eq!(parse_session(&[0x0B, 0x0C]), Err(WireError::WireType));
}
