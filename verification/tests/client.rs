use mumbot::client::{
    file_name, file_name_at, manage_remote_sessions, mumble_decode, mumble_ping, say_frames,
    say_frames_at, say_frames_from, say_something, try_mumble_decode, ClientError, ClientState, Decoders, VoiceBuffer, CHUNK_SAMPLES,
    SEGMENT_SAMPLES,
};
use mumbot::mumble::{packet, Awaiting, Packet};
use mumbot::wire::WireError;
use std::collections::HashMap;

fn received(kind: u16, payload: &[u8]) -> Packet {
    Packet { kind, payload: payload.to_vec() }
}

#[test]
fn a_plain_sign_of_life() {
    assert_eq!(mumble_ping(), vec![0, 3, 0, 0, 0, 0]);
}

#[test]
fn a_voice_on_the_control_channel_is_heard() {
    let mut client = ClientState::new();
    assert!(matches!(client.mumble_recv(received(5, &[0x08, 42])), Ok(None)));
    let heard = client
        .mumble_recv(received(1, &[0x80, 7, 9, 2, 10, 11, 0xA0, 1, 12]))
        .ok()
        .unwrap()
        .unwrap();
    assert_eq!(heard.remote, 7);
    assert_eq!(heard.local, 42);
    assert_eq!(heard.segments.data, vec![10, 11, 12]);
    assert_eq!(heard.segments.segments, 2);
    assert!(heard.segments.done);
    assert_eq!(heard.segments.sample_room(SEGMENT_SAMPLES), Some(1920));
    assert_eq!(client.remotes.len(), 1);
    assert_eq!(client.remotes[&7].session, 7);
    assert_eq!(client.remotes[&7].sequence, 0);
    assert_eq!(client.local.session, 42);
}

#[test]
fn most_messages_change_nothing() {
    let mut client = ClientState::new();
    for kind in [0, 3, 7, 8, 9, 11, 15, 20, 21, 24] {
        assert!(matches!(client.mumble_recv(received(kind, &[])), Ok(None)));
    }
    assert!(matches!(client.mumble_recv(received(1, &[0x25])), Ok(None)));
    assert_eq!(client.local.session, 0);
    assert!(client.remotes.is_empty());
}

#[test]
fn the_client_refuses() {
    let mut client = ClientState::new();
    let mut refused = |kind: u16, payload: &[u8]| client.mumble_recv(received(kind, payload)).err();
    assert_eq!(refused(99, &[]), Some(ClientError::UnknownKind));
    assert_eq!(refused(1, &[]), Some(ClientError::EmptyTunnel));
    assert_eq!(refused(1, &[0x40]), Some(ClientError::AudioType));
    assert_eq!(refused(1, &[0x80, 7]), Some(ClientError::ShortVoice));
    assert_eq!(refused(1, &[0x80, 7, 1, 5, 1]), Some(ClientError::ShortSegment));
    assert_eq!(refused(0, &[0x08]), Some(ClientError::Message(WireError::Malformed)));
    assert_eq!(refused(9, &[0x0A, 0]), Some(ClientError::Message(WireError::WireType)));
    assert_eq!(refused(15, &[0x08, 0]), Some(ClientError::Message(WireError::WireType)));
    assert!(client.remotes.is_empty());
}

#[test]
fn the_client_reads_in_parts() {
    let mut client = ClientState::new();
    let mut stream = packet(5, &[0x08, 1]);
    stream.extend(packet(1, &[0x80, 3, 1, 1, 99]));
    let mut heard = Vec::new();
    let mut at = 0;
    while at < stream.len() {
        let n = client.awaiting.wanted();
        if let Some(h) = client.mumble_loop(stream[at..at + n].to_vec()) {
            heard.push((h.remote, h.segments.data, h.local));
        }
        at += n;
    }
    assert_eq!(heard, vec![(3, vec![99], 1)]);
    assert_eq!(client.awaiting, Awaiting::Kind);
    assert!(matches!(client.try_mumble_loop(vec![0, 99]), Ok(None)));
    assert!(matches!(client.try_mumble_loop(vec![0, 0, 0, 0]), Ok(None)));
    assert_eq!(client.try_mumble_loop(vec![]).err(), Some(ClientError::UnknownKind));
}

#[test]
fn complete_segments_are_decoded() {
    assert_eq!(mumble_decode(vec![1, 5]).data, vec![5]);
    assert_eq!(mumble_decode(vec![]).segments, 0);
    assert_eq!(try_mumble_decode(vec![1, 5]).unwrap().data, vec![5]);
    assert!(try_mumble_decode(vec![2, 5]).is_none());
    assert_eq!(try_mumble_decode(vec![]).unwrap().segments, 0);
}

#[test]
fn sessions_are_managed() {
    let mut sessions = HashMap::new();
    manage_remote_sessions(4, &mut sessions);
    manage_remote_sessions(4, &mut sessions);
    manage_remote_sessions(5, &mut sessions);
    assert_eq!(sessions.len(), 2);
    assert_eq!((sessions[&4].session, sessions[&4].sequence), (4, 0));
}

#[test]
fn speech_is_collected() {
    let mut buffer = VoiceBuffer::new();
    assert_eq!(buffer.voice_buffer(&[1, 2], false), None);
    assert_eq!(buffer.voice_buffer(&[], false), None);
    assert_eq!(buffer.voice_buffer(&[3], true), Some(vec![1, 2, 3]));
    assert!(buffer.writer.is_none());
    assert_eq!(buffer.voice_buffer(&[4], true), Some(vec![4]));
}

#[test]
fn files_are_named() {
    assert_eq!(file_name_at(0, "x"), "incoming-0-x.raw");
    assert_eq!(
        file_name_at(4294967295, "2017-09-01-12-00-00"),
        "incoming-4294967295-2017-09-01-12-00-00.raw"
    );
    let now = file_name(12);
    assert_eq!(now.len(), "incoming-12-2017-09-01-12-00-00.raw".len());
    assert!(now.starts_with("incoming-12-"));
    assert!(now.ends_with(".raw"));
    let date = &now.as_bytes()["incoming-12-".len()..now.len() - ".raw".len()];
    for (i, c) in date.iter().enumerate() {
        assert_eq!(*c == b'-', [4, 7, 10, 13, 16].contains(&i));
        assert!(*c == b'-' || c.is_ascii_digit());
    }
}

#[test]
fn a_file_is_cut_into_chunks() {
    let chunks = say_something(&[1u8; 2 * 500 + 1]);
    assert_eq!(chunks.len(), 2);
    assert_eq!(chunks[0], vec![0x0101i16; CHUNK_SAMPLES]);
    assert_eq!(chunks[1], vec![0x0101i16; 20]);
    assert!(say_something(&[1]).is_empty());
}

#[test]
fn frames_are_said() {
    let packets = say_frames_from(299, &vec![vec![7], vec![8, 9]]);
    assert_eq!(
        packets,
        vec![
            vec![0, 1, 0, 0, 0, 5, 0x80, 0x81, 0x2C, 1, 7],
            vec![0, 1, 0, 0, 0, 6, 0x80, 0x81, 0x2D, 2, 8, 9],
        ]
    );
    let packets = say_frames(&vec![vec![7]]).unwrap();
    assert_eq!(&packets[0][0..2], &[0, 1]);
    assert_eq!(packets[0][6], 0x80);
    assert_eq!(say_frames(&vec![]).unwrap(), Vec::<Vec<u8>>::new());
}

#[test]
fn what_one_client_says_another_hears() {
    let packets = say_frames_from(5, &vec![vec![1, 2, 3]]);
    let mut payload = packets[0][6..].to_vec();
    payload.insert(1, 42);
    let mut client = ClientState::new();
    let heard = client.mumble_recv(received(1, &payload)).ok().unwrap().unwrap();
    assert_eq!(heard.remote, 42);
    assert_eq!(heard.segments.data, vec![1, 2, 3]);
    assert!(!heard.segments.done);
}

#[test]
fn sequence_numbers_have_to_fit() {
    let frames = vec![vec![7], vec![8, 9]];
    assert_eq!(say_frames_at(299, &frames), Some(say_frames_from(299, &frames)));
    assert!(say_frames_at(u64::MAX - 2, &frames).is_some());
    assert!(say_frames_at(u64::MAX - 1, &frames).is_none());
    assert!(say_frames_at(u64::MAX, &frames).is_none());
    assert_eq!(say_frames_at(u64::MAX, &vec![]), Some(vec![]));
}

#[test]
fn each_user_has_a_decoder() {
    let mut decoders = Decoders::<Vec<u8>>::new();
    assert_eq!(decoders.take(7), None);
    decoders.put(7, vec![1]);
    decoders.put(8, vec![2]);
    assert_eq!(decoders.take(7), Some(vec![1]));
    assert_eq!(decoders.take(7), None);
    assert_eq!(decoders.take(8), Some(vec![2]));
}

/// What a decoder that counts its packets makes of the voice of one user.
fn listen(payloads: &[&[u8]], user: u64) -> Vec<(Vec<u8>, bool)> {
    let mut client = ClientState::new();
    let mut decoders = Decoders::<u8>::new();
    let mut out = Vec::new();
    for payload in payloads {
        if let Some(heard) = client.mumble_recv(received(1, payload)).ok().unwrap() {
            let count = decoders.take(heard.remote).unwrap_or(0) + 1;
            decoders.put(heard.remote, count);
            if heard.remote == user {
                let mut pcm = heard.segments.data;
                pcm.push(count);
                out.push((pcm, heard.segments.done));
            }
        }
    }
    out
}

#[test]
fn others_do_not_change_what_is_heard_of_a_user() {
    let first: &[u8] = &[0x80, 7, 1, 1, 50];
    let second: &[u8] = &[0x80, 7, 2, 0xA0, 1, 51];
    let other: &[u8] = &[0x80, 9, 1, 1, 99];
    let ping: &[u8] = &[0x20];
    let expected = vec![(vec![50, 1], false), (vec![51, 2], true)];
    assert_eq!(listen(&[first, second], 7), expected);
    assert_eq!(listen(&[other, first, other, ping, other, second], 7), expected);
}
