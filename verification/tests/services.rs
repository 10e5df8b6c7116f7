use mumbot::clock::{compact_now, hyphenated_now};
use mumbot::config::{Aws, Config, Mumble};
use mumbot::connector::{shutdown, Begun, Closing, MidHandshake, Outcome, Polled, Shutdown};
use mumbot::gst::{
    bus_step, new_samples, src_pushed, src_rx, BusMessage, BusStep, Flow, SourceStep, SOURCES,
};
use mumbot::lex::{request, request_at, Header};
use mumbot::protocol::{Codec, Error};
use mumbot::text::{decimal, padded_decimal};

fn config() -> Config {
    Config {
        mumble: Mumble { server: "127.0.0.1:64738".to_string() },
        aws: Aws { access_key_id: "id".to_string(), secret_access_key: "key".to_string() },
    }
}

fn pairs(headers: &[Header]) -> Vec<(&str, &str)> {
    headers.iter().map(|h| (h.name.as_str(), h.value.as_str())).collect()
}

#[test]
fn a_request_is_made() {
    let r = request_at(&config(), 42, "20170901T120000Z");
    assert_eq!(
        r.url,
        "https://runtime.lex.us-east-1.amazonaws.com/bot/Lyric/alias/Lyric/user/00042/content"
    );
    assert_eq!(r.access_key_id, "id");
    assert_eq!(r.secret_access_key, "key");
    assert_eq!(r.payload_hash, "UNSIGNED-PAYLOAD");
    assert_eq!(
        pairs(&r.signed),
        vec![
            ("host", "runtime.lex.us-east-1.amazonaws.com"),
            ("content-type", "audio/l16; rate=16000; channels=1"),
            ("x-amz-content-sha256", "UNSIGNED-PAYLOAD"),
            ("x-amz-date", "20170901T120000Z"),
        ]
    );
    assert_eq!((r.method(), r.service(), r.region()), ("POST", "lex", "us-east-1"));
    let headers = r.headers("AWS4");
    assert_eq!(
        pairs(&headers),
        vec![
            ("content-type", "audio/l16; rate=16000; channels=1"),
            ("host", "runtime.lex.us-east-1.amazonaws.com"),
            ("authorization", "AWS4"),
            ("accept", "audio/pcm"),
            ("x-amz-date", "20170901T120000Z"),
            ("x-amz-content-sha256", "UNSIGNED-PAYLOAD"),
        ]
    );
    for signed in pairs(&r.signed) {
        assert!(pairs(&headers).contains(&signed));
    }
}

#[test]
fn a_request_tells_the_time() {
    let r = request(&config(), 1234567);
    assert!(r.url.ends_with("/user/1234567/content"));
    let now = r.now.as_bytes();
    assert_eq!(now.len(), 16);
    assert_eq!((now[8], now[15]), (b'T', b'Z'));
    assert!(now[0..8].iter().chain(&now[9..15]).all(|c| c.is_ascii_digit()));
    assert_eq!(r.signed[3].value, r.now);
}

#[test]
fn numbers_become_text() {
    assert_eq!(decimal(0), "0");
    assert_eq!(decimal(1234567890), "1234567890");
    assert_eq!(decimal(u64::MAX), "18446744073709551615");
    assert_eq!(padded_decimal(7, 5), "00007");
    assert_eq!(padded_decimal(123456, 5), "123456");
    assert_eq!(padded_decimal(0, 0), "0");
}

#[test]
fn a_handshake_is_resumed_until_it_is_over() {
    let mut mid = MidHandshake::<u8, u16, u32>::new(Outcome::Interrupted(1));
    assert!(matches!(mid.begin(), Begun::Resume(1)));
    assert!(matches!(mid.resumed(Outcome::Interrupted(2)), Polled::NotReady));
    assert!(matches!(mid.begin(), Begun::Resume(2)));
    assert!(matches!(mid.resumed(Outcome::Done(9)), Polled::Ready(9)));
    assert!(mid.inner.is_none());
    let mut mid = MidHandshake::<u8, u16, u32>::new(Outcome::Done(5));
    assert!(matches!(mid.begin(), Begun::Ready(5)));
    assert!(mid.inner.is_none());
    let mut mid = MidHandshake::<u8, u16, u32>::new(Outcome::Failed(6));
    assert!(matches!(mid.begin(), Begun::Failed(6)));
    let mut mid = MidHandshake::<u8, u16, u32> { inner: None };
    assert!(matches!(mid.resumed(Outcome::Failed(7)), Polled::Failed(7)));
}

#[test]
fn a_connection_is_closed() {
    assert_eq!(shutdown(Closing::Sent), Shutdown::Again);
    assert_eq!(shutdown(Closing::Received), Shutdown::Ready);
    assert_eq!(shutdown(Closing::ZeroReturn), Shutdown::Ready);
    assert_eq!(shutdown(Closing::Stream), Shutdown::StreamFailed);
    assert_eq!(shutdown(Closing::WantRead), Shutdown::NotReady);
    assert_eq!(shutdown(Closing::WantWrite), Shutdown::NotReady);
    assert_eq!(shutdown(Closing::Other), Shutdown::Failed);
}

#[test]
fn recorded_sound_goes_on() {
    let got = new_samples(Some(&[1, 2, 3]));
    assert_eq!(got.flow, Flow::Going);
    assert_eq!(got.bytes, Some(vec![1, 2, 3]));
    let got = new_samples(None);
    assert_eq!(got.flow, Flow::Eos);
    assert_eq!(got.bytes, None);
}

#[test]
fn pipelines_are_watched() {
    assert_eq!(bus_step(BusMessage::Eos), BusStep::Stop);
    assert_eq!(bus_step(BusMessage::Error), BusStep::Fail);
    assert_eq!(bus_step(BusMessage::Other), BusStep::Wait);
}

#[test]
fn users_are_played() {
    assert_eq!(src_rx(-1), None);
    assert_eq!(src_rx(0), Some(0));
    assert_eq!(src_rx(SOURCES as i32 - 1), Some(15));
    assert_eq!(src_pushed(Flow::Going), SourceStep::Play);
    assert_eq!(src_pushed(Flow::Eos), SourceStep::End);
    assert_eq!(src_pushed(Flow::Failed), SourceStep::End);
}

#[test]
fn the_codec_fails_with_words() {
    let _ = Codec;
    assert_eq!(Error.description(), "Something bad happened");
    assert_eq!(Error.text(), "Oh no, something bad went down");
}

#[test]
fn the_time_is_written_by_patterns() {
    let now = compact_now();
    assert_eq!(now.len(), 16);
    assert_eq!((&now[8..9], &now[15..]), ("T", "Z"));
    assert!(now[0..4].parse::<u32>().unwrap() >= 2017);
    let now = hyphenated_now();
    let parts: Vec<&str> = now.split('-').collect();
    assert_eq!(parts.iter().map(|p| p.len()).collect::<Vec<_>>(), vec![4, 2, 2, 2, 2, 2]);
    assert!(parts.iter().all(|p| p.parse::<u32>().is_ok()));
}
