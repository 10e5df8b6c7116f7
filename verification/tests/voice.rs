use mumbot::cursor::ReadError;
use mumbot::pcm::{to_bytes, to_chunks, to_samples};
use mumbot::speech::{say, say_test, Speaker, PACKET_BYTES, PACKET_SAMPLES};
use mumbot::udp::{
    udp_ping, udp_ping_at, udp_recv_loop, voice_packet, AudioInPacket, AudioOutPacket,
    AudioPacketCodec,
};
use mumbot::util::{opus_decode, opus_segments, SEGMENT_SAMPLES};

fn codec() -> AudioPacketCodec {
    AudioPacketCodec { encoder_sequence: 0, decoder_sequence: 0 }
}

fn voice(pcm: Vec<i16>) -> AudioOutPacket {
    AudioOutPacket { type_: 4, target: 0, pcm, done: false, timestamp: 0 }
}

#[test]
fn a_voice_packet_is_read() {
    let mut codec = codec();
    let got = codec.decode(vec![0x83, 5, 0x81, 0x2C, 1, 2, 3]);
    assert_eq!(got.type_, 4);
    assert_eq!(got.target, 3);
    assert_eq!(got.frame, Some(vec![1, 2, 3]));
    assert_eq!(codec.decoder_sequence, 300);
    assert_eq!(codec.encoder_sequence, 0);
}

#[test]
fn other_packets_have_no_sound() {
    let mut codec = codec();
    let got = codec.decode(vec![0x21, 0xFF, 0xFF]);
    assert_eq!((got.type_, got.target), (1, 1));
    assert_eq!(got.frame, None);
    assert_eq!(codec.decoder_sequence, 0);
    let packet = got.into_packet(vec![1, 2]);
    assert_eq!(packet.pcm, Vec::<u8>::new());
    assert_eq!(udp_recv_loop(packet), None);
    let got = codec.decode(vec![0xFF]);
    assert_eq!((got.type_, got.target), (7, 31));
}

#[test]
fn short_packets_are_refused() {
    let mut codec = codec();
    assert_eq!(codec.try_decode(vec![]).err(), Some(ReadError::UnexpectedEof));
    assert_eq!(codec.try_decode(vec![0x80]).err(), Some(ReadError::UnexpectedEof));
    assert_eq!(codec.try_decode(vec![0x80, 5]).err(), Some(ReadError::UnexpectedEof));
    assert_eq!(codec.try_decode(vec![0x80, 5, 0xF0, 1]).err(), Some(ReadError::UnexpectedEof));
    assert_eq!(codec.decoder_sequence, 0);
    let got = codec.try_decode(vec![0x80, 5, 6, 1]).ok().unwrap();
    assert_eq!(got.frame, Some(vec![1]));
    assert_eq!(codec.decoder_sequence, 6);
}

#[test]
fn sound_is_handed_on() {
    let packet = AudioInPacket { type_: 4, target: 0, pcm: vec![1, 2] };
    assert_eq!(udp_recv_loop(packet), Some(vec![1, 2]));
    for type_ in [0, 1, 2, 3, 5, 6, 7] {
        assert_eq!(udp_recv_loop(AudioInPacket { type_, target: 0, pcm: vec![1] }), None);
    }
}

#[test]
fn voice_packets_are_numbered() {
    let mut codec = codec();
    assert_eq!(codec.encode(&voice(vec![1]), &[9, 9, 9]), vec![0x80, 1, 3, 9, 9, 9]);
    assert_eq!(codec.encode(&udp_ping_at(300), &[]), vec![0x20, 0x81, 0x2C]);
    assert_eq!(codec.encode(&voice(vec![1]), &[]), vec![0x80, 2, 0]);
    assert_eq!(codec.encoder_sequence, 2);
    let long = codec.encode(&voice(vec![1]), &[7; 200]);
    assert_eq!(&long[0..4], &[0x80, 3, 0x80, 200]);
    assert_eq!(&long[4..], &[7; 200][..]);
}

#[test]
fn only_voice_is_compressed() {
    assert_eq!(AudioPacketCodec::to_compress(&voice(vec![1, 2])), Some(&vec![1, 2]));
    assert_eq!(AudioPacketCodec::to_compress(&udp_ping_at(1)), None);
}

#[test]
fn encryption_takes_four_bytes() {
    assert_eq!(AudioPacketCodec::opened_len(5), 1);
    assert_eq!(AudioPacketCodec::opened_len(10), 6);
    assert_eq!(AudioPacketCodec::sealed_len(6), 10);
}

#[test]
fn a_datagram_ping_is_made() {
    let ping = udp_ping_at(77);
    assert_eq!((ping.type_, ping.target, ping.done, ping.timestamp), (1, 0, false, 77));
    assert!(ping.pcm.is_empty());
    assert!(udp_ping().timestamp > 1_400_000_000);
}

#[test]
fn what_is_sent_is_heard() {
    let frame = vec![5u8; 300];
    let mut speaker = codec();
    let mut sent = speaker.encode(&voice(vec![0; 160]), &frame);
    // The server puts the session of the speaker behind the first byte.
    sent.insert(1, 42);
    let mut listener = codec();
    let got = listener.decode(sent);
    assert_eq!(listener.decoder_sequence, 1);
    let segments = opus_segments(got.frame.unwrap());
    assert_eq!(segments.data, frame);
    assert_eq!(segments.segments, 1);
    assert!(!segments.done);
    assert!(segments.complete);
}

#[test]
fn segments_are_put_together() {
    let got = opus_segments(vec![0x02, 10, 11, 0xA0, 0x01, 12]);
    assert_eq!(got.data, vec![10, 11, 12]);
    assert_eq!(got.segments, 2);
    assert!(got.done);
    assert!(got.complete);
    assert_eq!(got.sample_room(SEGMENT_SAMPLES), Some(640));
    assert_eq!(got.sample_room(usize::MAX), None);
    let got = opus_segments(vec![]);
    assert_eq!((got.segments, got.done, got.complete), (0, false, true));
    assert_eq!(got.sample_room(SEGMENT_SAMPLES), Some(0));
}

#[test]
fn bits_above_the_mark_are_ignored() {
    let got = opus_segments(vec![0xC0, 0x40, 0x02, 1, 2]);
    assert_eq!(got.data, vec![1, 2]);
    assert!(!got.done);
}

#[test]
fn a_segment_that_is_cut_short_counts() {
    let got = opus_segments(vec![0x01, 7, 0xA0, 0x05, 1]);
    assert_eq!(got.data, vec![7]);
    assert_eq!(got.segments, 2);
    assert!(got.done);
    assert!(!got.complete);
}

#[test]
fn decoded_samples_become_bytes() {
    assert_eq!(opus_decode(Some(2), &[1, -2, 3]), vec![1, 0, 0xFE, 0xFF]);
    assert_eq!(opus_decode(Some(0), &[1]), Vec::<u8>::new());
    assert_eq!(opus_decode(None, &[1, 2]), Vec::<u8>::new());
}

#[test]
fn samples_are_little_endian() {
    assert_eq!(to_samples(&[0x34, 0x12, 0x00, 0x80, 0xFF, 0xFF, 9]), vec![0x1234, -32768, -1]);
    assert_eq!(to_bytes(&[0x1234, -32768, -1], 3), vec![0x34, 0x12, 0x00, 0x80, 0xFF, 0xFF]);
    let all: Vec<i16> = (i16::MIN..=i16::MAX).collect();
    assert_eq!(to_samples(&to_bytes(&all, all.len())), all);
}

#[test]
fn chunks_give_the_whole_back() {
    assert_eq!(to_chunks(&[1, 2, 3, 4, 5], 2), vec![vec![1, 2], vec![3, 4], vec![5]]);
    assert_eq!(to_chunks(&[1, 2], 2), vec![vec![1, 2]]);
    assert!(to_chunks::<u8>(&[], 2).is_empty());
    assert_eq!(to_chunks(&[1, 2, 3, 4, 5], 2).concat(), vec![1, 2, 3, 4, 5]);
}

fn recording(samples: usize) -> Vec<u8> {
    let samples: Vec<i16> = (0..samples).map(|i| i as i16 - 100).collect();
    to_bytes(&samples, samples.len())
}

#[test]
fn speech_goes_out_in_packets() {
    let bytes = recording(350);
    let packets = say(&vec![bytes.clone()]);
    assert_eq!(packets.len(), 3);
    for p in &packets {
        assert_eq!((p.type_, p.target, p.done, p.timestamp), (4, 0, false, 0));
        assert_eq!(p.pcm.len(), PACKET_SAMPLES);
    }
    let all: Vec<i16> = packets.iter().flat_map(|p| p.pcm.clone()).collect();
    assert_eq!(&all[..350], &to_samples(&bytes)[..]);
    assert!(all[350..].iter().all(|s| *s == 0));
}

#[test]
fn full_packets_need_no_silence() {
    assert_eq!(say(&vec![recording(320)]).len(), 2);
    assert!(say(&vec![]).is_empty());
}

#[test]
fn segments_of_any_length_give_the_same_packets() {
    let bytes = recording(500);
    let whole: Vec<Vec<i16>> = say(&vec![bytes.clone()]).into_iter().map(|p| p.pcm).collect();
    for n in [1, 3, 7, 319, 320, 321, 999] {
        let parts = to_chunks(&bytes, n);
        let packets: Vec<Vec<i16>> = say(&parts).into_iter().map(|p| p.pcm).collect();
        assert_eq!(packets, whole);
    }
}

#[test]
fn a_speaker_keeps_what_fills_no_packet() {
    let mut speaker = Speaker::new();
    assert!(speaker.push(&[1; 319]).is_empty());
    assert_eq!(speaker.pending_len(), 319);
    assert_eq!(speaker.push(&[1; 3]).len(), 1);
    assert_eq!(speaker.pending_len(), 2);
    let last = speaker.finish().unwrap();
    assert_eq!(last.pcm[0], 0x0101);
    assert_eq!(last.pcm[1], 0);
    assert_eq!(last.pcm.len(), PACKET_SAMPLES);
    assert!(Speaker::new().finish().is_none());
}

#[test]
fn a_recording_is_cut_into_packets() {
    let bytes = recording(200);
    let parts = say_test(&bytes);
    assert_eq!(parts.len(), 2);
    assert_eq!(parts[0].len(), PACKET_BYTES);
    assert_eq!(parts[1].len(), 80);
    assert_eq!(parts.concat(), bytes);
}

#[test]
fn a_voice_packet_is_written() {
    assert_eq!(voice_packet(300, &[1, 2]), vec![0x80, 0x81, 0x2C, 2, 1, 2]);
}
