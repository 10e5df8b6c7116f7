//! Packets of the control channel and the messages in them.
//!
//! A packet is a 16-bit kind, a 32-bit length, both in network order, and a payload. The payload
//! of every kind but one is a protocol buffer message.

use crate::network;
use crate::wire;
use crate::wire::{
    bytes_in_field, parse_fields, uint32_field, write_bool, write_string, write_uint32,
    write_uint64, WireError,
};
use vstd::prelude::*;
use vstd::utf8;

verus! {

/// The versions of the peers.
pub const VERSION: u16 = 0;

/// A voice packet that travels on the control channel.
pub const UDP_TUNNEL: u16 = 1;

/// A client's credentials.
pub const AUTHENTICATE: u16 = 2;

/// A sign of life.
pub const PING: u16 = 3;

/// The end of the handshake, with the client's own session.
pub const SERVER_SYNC: u16 = 5;

/// A channel and its properties.
pub const CHANNEL_STATE: u16 = 7;

/// The departure of a user.
pub const USER_REMOVE: u16 = 8;

/// A user and its properties.
pub const USER_STATE: u16 = 9;

/// A line of chat.
pub const TEXT_MESSAGE: u16 = 11;

/// The key and the nonces of the voice channel.
pub const CRYPT_SETUP: u16 = 15;

/// What a client may do in a channel.
pub const PERMISSION_QUERY: u16 = 20;

/// The codecs in use.
pub const CODEC_VERSION: u16 = 21;

/// The limits that a server sets.
pub const SERVER_CONFIG: u16 = 24;

/// The bytes of a packet. Of the length of the payload 32 bits are written.
pub open spec fn packet_bytes(kind: u16, payload: Seq<u8>) -> Seq<u8> {
    network::be_bytes(kind as nat, 2) + network::be_bytes(payload.len() % 0x1_0000_0000, 4)
        + payload
}

/// A packet of kind `kind` with the payload `payload`.
pub fn packet(kind: u16, payload: &[u8]) -> (r: Vec<u8>)
    ensures
        r@ == packet_bytes(kind, payload@),
{
    let mut out: Vec<u8> = Vec::new();
    network::write_u16(&mut out, kind);
    network::write_u32(&mut out, (payload.len() as u64 % 0x1_0000_0000) as u32);
    out.extend_from_slice(payload);
    assert(out@ =~= packet_bytes(kind, payload@));
    out
}

/// A packet that was received.
pub struct Packet {
    pub kind: u16,
    pub payload: Vec<u8>,
}

/// What part of a packet comes next.
#[derive(Clone, Copy, Debug, PartialEq, Eq, Structural)]
pub enum Awaiting {
    Kind,
    Length { kind: u16 },
    Payload { kind: u16, length: u32 },
}

impl Awaiting {
    /// How many bytes the next part has.
    pub open spec fn wants(self) -> nat {
        match self {
            Awaiting::Kind => 2,
            Awaiting::Length { .. } => 4,
            Awaiting::Payload { length, .. } => length as nat,
        }
    }

    /// What comes after the part `part`, and the packet that it completes.
    pub open spec fn after(self, part: Seq<u8>) -> (Awaiting, Option<(u16, Seq<u8>)>) {
        match self {
            Awaiting::Kind => (Awaiting::Length { kind: network::be_value(part) as u16 }, None),
            Awaiting::Length { kind } => (
                Awaiting::Payload { kind, length: network::be_value(part) as u32 },
                None,
            ),
            Awaiting::Payload { kind, .. } => (Awaiting::Kind, Some((kind, part))),
        }
    }

    /// How many bytes the next part has.
    pub fn wanted(&self) -> (r: usize)
        ensures
            r == self.wants(),
    {
        match *self {
            Awaiting::Kind => 2,
            Awaiting::Length { .. } => 4,
            Awaiting::Payload { length, .. } => length as usize,
        }
    }

    /// Takes the next part. The last part of a packet completes it.
    pub fn receive(&mut self, part: Vec<u8>) -> (r: Option<Packet>)
        requires
            part@.len() == old(self).wants(),
        ensures
            *final(self) == old(self).after(part@).0,
            match old(self).after(part@).1 {
                Some((kind, payload)) => r is Some && r->Some_0.kind == kind
                    && r->Some_0.payload@ == payload,
                None => r is None,
            },
    {
        assert(part@.take(part@.len() as int) =~= part@);
        match *self {
            Awaiting::Kind => {
                let kind = network::read_u16(part.as_slice());
                *self = Awaiting::Length { kind };
                None
            },
            Awaiting::Length { kind } => {
                let length = network::read_u32(part.as_slice());
                *self = Awaiting::Payload { kind, length };
                None
            },
            Awaiting::Payload { kind, .. } => {
                *self = Awaiting::Kind;
                Some(Packet { kind, payload: part })
            },
        }
    }
}

/// A packet that is sent is received, part by part, as it was.
pub proof fn packet_is_received(kind: u16, payload: Seq<u8>)
    requires
        payload.len() <= u32::MAX,
    ensures
        ({
            let s = packet_bytes(kind, payload);
            let length = payload.len() as u32;
            &&& s.len() == 6 + payload.len()
            &&& Awaiting::Kind.wants() == 2
            &&& Awaiting::Kind.after(s.subrange(0, 2)) == (
                Awaiting::Length { kind },
                None::<(u16, Seq<u8>)>,
            )
            &&& Awaiting::Length { kind }.wants() == 4
            &&& Awaiting::Length { kind }.after(s.subrange(2, 6)) == (
                Awaiting::Payload { kind, length },
                None::<(u16, Seq<u8>)>,
            )
            &&& Awaiting::Payload { kind, length }.wants() == payload.len()
            &&& Awaiting::Payload { kind, length }.after(s.skip(6)) == (
                Awaiting::Kind,
                Some((kind, payload)),
            )
        }),
{
    let s = packet_bytes(kind, payload);
    network::be_range_values();
    network::be_round_trip(kind as nat, 2);
    network::be_round_trip(payload.len(), 4);
    assert(s.subrange(0, 2) =~= network::be_bytes(kind as nat, 2));
    assert(s.subrange(2, 6) =~= network::be_bytes(payload.len(), 4));
    assert(s.skip(6) =~= payload);
}

/// The packets that come out of the bytes `s`, where the part that `state` says comes next.
pub open spec fn received(state: Awaiting, s: Seq<u8>) -> Seq<(u16, Seq<u8>)>
    decreases
            s.len(),
            (if state is Payload {
                1int
            } else {
                0
            }),
{
    let n = state.wants() as int;
    if s.len() < n {
        Seq::empty()
    } else {
        let (next, out) = state.after(s.take(n));
        let rest = received(next, s.skip(n));
        match out {
            Some(p) => seq![p] + rest,
            None => rest,
        }
    }
}

/// The bytes of packets, one after the other.
pub open spec fn sent(packets: Seq<(u16, Seq<u8>)>) -> Seq<u8>
    decreases packets.len(),
{
    if packets.len() == 0 {
        Seq::empty()
    } else {
        packet_bytes(packets[0].0, packets[0].1) + sent(packets.drop_first())
    }
}

/// Packets that are sent one after the other are received as they were, and no others.
pub proof fn packets_are_received(packets: Seq<(u16, Seq<u8>)>)
    requires
        forall|i: int| 0 <= i < packets.len() ==> (#[trigger] packets[i]).1.len() <= u32::MAX,
    ensures
        received(Awaiting::Kind, sent(packets)) == packets,
    decreases packets.len(),
{
    if packets.len() == 0 {
        assert(received(Awaiting::Kind, sent(packets)) =~= packets);
    } else {
        let (kind, payload) = packets[0];
        let length = payload.len() as u32;
        let head = packet_bytes(kind, payload);
        let tail = sent(packets.drop_first());
        let s = head + tail;
        packet_is_received(kind, payload);
        packets_are_received(packets.drop_first());
        let t = s.skip(2);
        let u = t.skip(4);
        assert(s.take(2) =~= head.subrange(0, 2));
        assert(t.take(4) =~= head.subrange(2, 6));
        assert(u.take(payload.len() as int) =~= head.skip(6));
        assert(u.skip(payload.len() as int) =~= tail);
        assert(received(Awaiting::Payload { kind, length }, u) =~= packets);
        assert(received(Awaiting::Length { kind }, t) == packets);
    }
}

/// A client's version.
pub struct Version {
    pub version: u32,
    pub release: String,
    pub os: String,
    pub os_version: String,
}

/// The message of a version.
pub open spec fn version_bytes(
    version: u32,
    release: Seq<char>,
    os: Seq<char>,
    os_version: Seq<char>,
) -> Seq<u8> {
    wire::number_field(1, version as u64) + wire::bytes_field(2, utf8::encode_utf8(release))
        + wire::bytes_field(3, utf8::encode_utf8(os)) + wire::bytes_field(4, utf8::encode_utf8(os_version))
}

impl Version {
    /// The message.
    pub fn write(&self) -> (r: Vec<u8>)
        requires
            version_bytes(self.version, self.release@, self.os@, self.os_version@).len()
                <= u32::MAX - 6,
        ensures
            r@ == version_bytes(self.version, self.release@, self.os@, self.os_version@),
    {
        let mut out: Vec<u8> = Vec::new();
        write_uint32(&mut out, 1, self.version);
        write_string(&mut out, 2, self.release.as_str());
        write_string(&mut out, 3, self.os.as_str());
        write_string(&mut out, 4, self.os_version.as_str());
        assert(out@ =~= version_bytes(
            self.version,
            self.release@,
            self.os@,
            self.os_version@,
        ));
        out
    }
}

/// A client's credentials.
pub struct Authenticate {
    pub username: String,
    pub opus: bool,
}

/// The message of credentials.
pub open spec fn authenticate_bytes(username: Seq<char>, opus: bool) -> Seq<u8> {
    wire::bytes_field(1, utf8::encode_utf8(username)) + wire::number_field(
        5,
        if opus {
            1
        } else {
            0
        },
    )
}

impl Authenticate {
    /// The message.
    pub fn write(&self) -> (r: Vec<u8>)
        requires
            authenticate_bytes(self.username@, self.opus).len() <= u32::MAX - 6,
        ensures
            r@ == authenticate_bytes(self.username@, self.opus),
    {
        let mut out: Vec<u8> = Vec::new();
        write_string(&mut out, 1, self.username.as_str());
        write_bool(&mut out, 5, self.opus);
        assert(out@ =~= authenticate_bytes(self.username@, self.opus));
        out
    }
}

/// A sign of life.
pub struct Ping {
    pub timestamp: Option<u64>,
}

/// The message of a sign of life.
pub open spec fn ping_bytes(timestamp: Option<u64>) -> Seq<u8> {
    match timestamp {
        Some(t) => wire::number_field(1, t),
        None => Seq::empty(),
    }
}

impl Ping {
    /// The message.
    pub fn write(&self) -> (r: Vec<u8>)
        ensures
            r@ == ping_bytes(self.timestamp),
    {
        let mut out: Vec<u8> = Vec::new();
        if let Some(t) = self.timestamp {
            write_uint64(&mut out, 1, t);
        }
        assert(out@ =~= ping_bytes(self.timestamp));
        out
    }
}

/// What a client reads of the end of the handshake, and of a user: a session.
pub open spec fn session_of(payload: Seq<u8>) -> Result<u32, WireError> {
    match wire::fields_of(payload) {
        Some(fields) => if wire::holds_numbers(fields, 1) {
            Ok(wire::last_number(fields, 1))
        } else {
            Err(WireError::WireType)
        },
        None => Err(WireError::Malformed),
    }
}

/// The session in the first field of `payload`, zero by default.
pub fn parse_session(payload: &[u8]) -> (r: Result<u32, WireError>)
    ensures
        r == session_of(payload@),
{
    match parse_fields(payload) {
        Ok(fields) => uint32_field(&fields, 1),
        Err(e) => Err(e),
    }
}

/// The key and the nonces of the voice channel.
pub struct CryptSetup {
    pub key: Vec<u8>,
    pub client_nonce: Vec<u8>,
    pub server_nonce: Vec<u8>,
}

/// What a client reads of a key exchange: the key, its own nonce and the server's nonce.
pub open spec fn crypt_setup_of(payload: Seq<u8>) -> Result<(Seq<u8>, Seq<u8>, Seq<u8>), WireError> {
    match wire::fields_of(payload) {
        Some(fields) => if wire::holds_bytes(fields, 1) && wire::holds_bytes(fields, 2)
            && wire::holds_bytes(fields, 3) {
            Ok(
                (
                    wire::last_bytes(fields, 1),
                    wire::last_bytes(fields, 2),
                    wire::last_bytes(fields, 3),
                ),
            )
        } else {
            Err(WireError::WireType)
        },
        None => Err(WireError::Malformed),
    }
}

impl CryptSetup {
    /// Reads the message. What is missing is empty.
    pub fn parse(payload: &[u8]) -> (r: Result<CryptSetup, WireError>)
        ensures
            match crypt_setup_of(payload@) {
                Ok((key, client_nonce, server_nonce)) => r is Ok && r->Ok_0.key@ == key
                    && r->Ok_0.client_nonce@ == client_nonce && r->Ok_0.server_nonce@
                    == server_nonce,
                Err(e) => r == Err::<CryptSetup, WireError>(e),
            },
    {
        let fields = match parse_fields(payload) {
            Ok(fields) => fields,
            Err(e) => {
                return Err(e);
            },
        };
        let key = match bytes_in_field(&fields, 1) {
            Ok(key) => key,
            Err(e) => {
                return Err(e);
            },
        };
        let client_nonce = match bytes_in_field(&fields, 2) {
            Ok(client_nonce) => client_nonce,
            Err(e) => {
                return Err(e);
            },
        };
        let server_nonce = match bytes_in_field(&fields, 3) {
            Ok(server_nonce) => server_nonce,
            Err(e) => {
                return Err(e);
            },
        };
        Ok(CryptSetup { key, client_nonce, server_nonce })
    }
}

/// What a client takes from a message.
pub ghost enum Content {
    /// Nothing.
    Plain,
    /// The message is of no kind that a client knows.
    Unknown,
    /// Its own session.
    ServerSync { session: u32 },
    /// The session of a user.
    UserState { session: u32 },
    /// A key, its own nonce and the server's nonce.
    CryptSetup { key: Seq<u8>, client_nonce: Seq<u8>, server_nonce: Seq<u8> },
}

/// Whether a client takes the fields of such a message apart and leaves it at that.
pub open spec fn is_plain(kind: u16) -> bool {
    kind == VERSION || kind == PING || kind == CHANNEL_STATE || kind == USER_REMOVE || kind
        == TEXT_MESSAGE || kind == PERMISSION_QUERY || kind == CODEC_VERSION || kind
        == SERVER_CONFIG
}

/// What a client takes from the message `payload` of kind `kind`.
pub open spec fn content_of(kind: u16, payload: Seq<u8>) -> Result<Content, WireError> {
    if is_plain(kind) {
        if wire::fields_of(payload) is Some {
            Ok(Content::Plain)
        } else {
            Err(WireError::Malformed)
        }
    } else if kind == SERVER_SYNC {
        match session_of(payload) {
            Ok(session) => Ok(Content::ServerSync { session }),
            Err(e) => Err(e),
        }
    } else if kind == USER_STATE {
        match session_of(payload) {
            Ok(session) => Ok(Content::UserState { session }),
            Err(e) => Err(e),
        }
    } else if kind == CRYPT_SETUP {
        match crypt_setup_of(payload) {
            Ok((key, client_nonce, server_nonce)) => Ok(
                Content::CryptSetup { key, client_nonce, server_nonce },
            ),
            Err(e) => Err(e),
        }
    } else {
        Ok(Content::Unknown)
    }
}

/// A message, as far as a client reads it.
pub enum Message {
    Plain,
    Unknown,
    ServerSync { session: u32 },
    UserState { session: u32 },
    CryptSetup { setup: CryptSetup },
}

impl Message {
    /// What a client takes from it.
    pub open spec fn view(&self) -> Content {
        match *self {
            Message::Plain => Content::Plain,
            Message::Unknown => Content::Unknown,
            Message::ServerSync { session } => Content::ServerSync { session },
            Message::UserState { session } => Content::UserState { session },
            Message::CryptSetup { setup } => Content::CryptSetup {
                key: setup.key@,
                client_nonce: setup.client_nonce@,
                server_nonce: setup.server_nonce@,
            },
        }
    }

    /// Reads the message `payload` of kind `kind`. Of the plain kinds only the framing of the
    /// fields is looked at, not what a field holds.
    pub fn parse(kind: u16, payload: &[u8]) -> (r: Result<Message, WireError>)
        ensures
            match content_of(kind, payload@) {
                Ok(content) => r is Ok && r->Ok_0@ == content,
                Err(e) => r == Err::<Message, WireError>(e),
            },
    {
        if kind == SERVER_SYNC {
            match parse_session(payload) {
                Ok(session) => Ok(Message::ServerSync { session }),
                Err(e) => Err(e),
            }
        } else if kind == USER_STATE {
            match parse_session(payload) {
                Ok(session) => Ok(Message::UserState { session }),
                Err(e) => Err(e),
            }
        } else if kind == CRYPT_SETUP {
            match CryptSetup::parse(payload) {
                Ok(setup) => Ok(Message::CryptSetup { setup }),
                Err(e) => Err(e),
            }
        } else if kind == VERSION || kind == PING || kind == CHANNEL_STATE || kind == USER_REMOVE
            || kind == TEXT_MESSAGE || kind == PERMISSION_QUERY || kind == CODEC_VERSION || kind
            == SERVER_CONFIG {
            match parse_fields(payload) {
                Ok(_) => Ok(Message::Plain),
                Err(e) => Err(e),
            }
        } else {
            Ok(Message::Unknown)
        }
    }
}

/// A version that is sent holds its four parts.
pub proof fn version_is_read(
    version: u32,
    release: Seq<char>,
    os: Seq<char>,
    os_version: Seq<char>,
)
    requires
        utf8::encode_utf8(release).len() <= u32::MAX,
        utf8::encode_utf8(os).len() <= u32::MAX,
        utf8::encode_utf8(os_version).len() <= u32::MAX,
    ensures
        wire::fields_of(version_bytes(version, release, os, os_version)) == Some(
            seq![
                wire::Field { number: 1, value: wire::Value::Varint(version as u64) },
                wire::Field { number: 2, value: wire::Value::Bytes(utf8::encode_utf8(release)) },
                wire::Field { number: 3, value: wire::Value::Bytes(utf8::encode_utf8(os)) },
                wire::Field { number: 4, value: wire::Value::Bytes(utf8::encode_utf8(os_version)) },
            ],
        ),
{
    let f2 = wire::bytes_field(2, utf8::encode_utf8(release));
    let f3 = wire::bytes_field(3, utf8::encode_utf8(os));
    let f4 = wire::bytes_field(4, utf8::encode_utf8(os_version));
    let end = Seq::<u8>::empty();
    wire::bytes_field_round_trip(4, utf8::encode_utf8(os_version), end);
    wire::bytes_field_round_trip(3, utf8::encode_utf8(os), f4 + end);
    wire::bytes_field_round_trip(2, utf8::encode_utf8(release), f3 + (f4 + end));
    wire::number_field_round_trip(1, version as u64, f2 + (f3 + (f4 + end)));
    assert(version_bytes(version, release, os, os_version) =~= wire::number_field(
        1,
        version as u64,
    ) + (f2 + (f3 + (f4 + end))));
    assert(wire::fields_of(version_bytes(version, release, os, os_version))->Some_0 =~= seq![
        wire::Field { number: 1, value: wire::Value::Varint(version as u64) },
        wire::Field { number: 2, value: wire::Value::Bytes(utf8::encode_utf8(release)) },
        wire::Field { number: 3, value: wire::Value::Bytes(utf8::encode_utf8(os)) },
        wire::Field { number: 4, value: wire::Value::Bytes(utf8::encode_utf8(os_version)) },
    ]);
}

/// Credentials that are sent hold the name and the choice of codec.
pub proof fn authenticate_is_read(username: Seq<char>, opus: bool)
    requires
        utf8::encode_utf8(username).len() <= u32::MAX,
    ensures
        wire::fields_of(authenticate_bytes(username, opus)) == Some(
            seq![
                wire::Field { number: 1, value: wire::Value::Bytes(utf8::encode_utf8(username)) },
                wire::Field {
                    number: 5,
                    value: wire::Value::Varint(
                        if opus {
                            1
                        } else {
                            0
                        },
                    ),
                },
            ],
        ),
{
    let v: u64 = if opus {
        1
    } else {
        0
    };
    let end = Seq::<u8>::empty();
    let f5 = wire::number_field(5, v);
    wire::number_field_round_trip(5, v, end);
    wire::bytes_field_round_trip(1, utf8::encode_utf8(username), f5 + end);
    assert(authenticate_bytes(username, opus) =~= wire::bytes_field(1, utf8::encode_utf8(username))
        + (f5 + end));
    assert(wire::fields_of(authenticate_bytes(username, opus))->Some_0 =~= seq![
        wire::Field { number: 1, value: wire::Value::Bytes(utf8::encode_utf8(username)) },
        wire::Field { number: 5, value: wire::Value::Varint(v) },
    ]);
}

/// A sign of life that is sent holds its time, if it has one.
pub proof fn ping_is_read(timestamp: Option<u64>)
    ensures
        wire::fields_of(ping_bytes(timestamp)) == Some(
            match timestamp {
                Some(t) => seq![wire::Field { number: 1, value: wire::Value::Varint(t) }],
                None => Seq::empty(),
            },
        ),
{
    if let Some(t) = timestamp {
        let end = Seq::<u8>::empty();
        wire::number_field_round_trip(1, t, end);
        assert(wire::number_field(1, t) + end =~= wire::number_field(1, t));
        assert(wire::fields_of(ping_bytes(timestamp))->Some_0 =~= seq![
            wire::Field { number: 1, value: wire::Value::Varint(t) },
        ]);
    }
}

/// A session that is written in the first field is the session that is read.
pub proof fn session_is_read(session: u32)
    ensures
        session_of(wire::number_field(1, session as u64)) == Ok::<u32, WireError>(session),
{
    let s = wire::number_field(1, session as u64);
    ping_is_read(Some(session as u64));
    let fields = wire::fields_of(s)->Some_0;
    assert(fields.last() == wire::Field { number: 1, value: wire::Value::Varint(session as u64) });
}

/// A key and nonces that are written are those that are read.
pub proof fn crypt_setup_is_read(key: Seq<u8>, client_nonce: Seq<u8>, server_nonce: Seq<u8>)
    requires
        key.len() <= u32::MAX,
        client_nonce.len() <= u32::MAX,
        server_nonce.len() <= u32::MAX,
    ensures
        crypt_setup_of(
            wire::bytes_field(1, key) + wire::bytes_field(2, client_nonce) + wire::bytes_field(
                3,
                server_nonce,
            ),
        ) == Ok::<_, WireError>((key, client_nonce, server_nonce)),
{
    let f2 = wire::bytes_field(2, client_nonce);
    let f3 = wire::bytes_field(3, server_nonce);
    let end = Seq::<u8>::empty();
    let s = wire::bytes_field(1, key) + f2 + f3;
    wire::bytes_field_round_trip(3, server_nonce, end);
    wire::bytes_field_round_trip(2, client_nonce, f3 + end);
    wire::bytes_field_round_trip(1, key, f2 + (f3 + end));
    assert(s =~= wire::bytes_field(1, key) + (f2 + (f3 + end)));
    let a = wire::Field { number: 1, value: wire::Value::Bytes(key) };
    let b = wire::Field { number: 2, value: wire::Value::Bytes(client_nonce) };
    let c = wire::Field { number: 3, value: wire::Value::Bytes(server_nonce) };
    let fields = wire::fields_of(s)->Some_0;
    assert(fields =~= seq![a, b, c]);
    assert(fields.drop_last() =~= seq![a, b]);
    assert(fields.drop_last().drop_last() =~= seq![a]);
    reveal_with_fuel(wire::last_bytes, 4);
}

/// A packet is two bytes of kind, four bytes of length, the high-order ones first, and the payload.
pub proof fn lemma_framed(kind: u16, payload: Seq<u8>)
    ensures
        ({
            let s = packet_bytes(kind, payload);
            &&& s.len() == 6 + payload.len()
            &&& 0x100 * s[0] + s[1] == kind
            &&& payload.len() <= u32::MAX ==> 0x100_0000 * s[2] + 0x1_0000 * s[3] + 0x100 * s[4]
                + s[5] == payload.len()
            &&& s.skip(6) == payload
        }),
{
    let s = packet_bytes(kind, payload);
    let length = payload.len() % 0x1_0000_0000;
    network::spelled_out(kind as nat);
    network::spelled_out(length);
    assert(s.skip(6) =~= payload);
    if payload.len() <= u32::MAX {
        let l = payload.len() as u32;
        assert(0x100_0000 * (l / 0x100_0000 % 0x100) + 0x1_0000 * (l / 0x1_0000 % 0x100) + 0x100 * (
        l / 0x100 % 0x100) + l % 0x100 == l) by (bit_vector);
    }
}

/// A packet is two bytes of kind, four bytes of length, the high-order ones first, and the payload.
pub proof fn packets_are_framed(kind: u16, payload: &[u8], r: Vec<u8>)
    requires
        call_ensures(packet, (kind, payload), r),
    ensures
        r@.len() == 6 + payload@.len(),
        0x100 * r@[0] + r@[1] == kind,
        payload@.len() <= u32::MAX ==> 0x100_0000 * r@[2] + 0x1_0000 * r@[3] + 0x100 * r@[4] + r@[5]
            == payload@.len(),
        r@.skip(6) == payload@,
{
    lemma_framed(kind, payload@);
}

/// The parts of a packet: two bytes are its kind, the next four its length, and as many bytes its
/// payload, with which the packet is complete and the next one begins.
pub proof fn parts_are_taken(
    awaiting: &mut Awaiting,
    part: Vec<u8>,
    r: Option<Packet>,
    wanted: usize,
)
    requires
        call_ensures(Awaiting::wanted, (&*old(awaiting),), wanted),
        part@.len() == wanted,
        call_ensures(Awaiting::receive, (awaiting, part), r),
    ensures
        match *old(awaiting) {
            Awaiting::Kind => {
                &&& wanted == 2
                &&& r is None
                &&& *final(awaiting) == (Awaiting::Length {
                    kind: (0x100 * part@[0] + part@[1]) as u16,
                })
            },
            Awaiting::Length { kind } => {
                &&& wanted == 4
                &&& r is None
                &&& *final(awaiting) == (Awaiting::Payload {
                    kind,
                    length: (0x100_0000 * part@[0] + 0x1_0000 * part@[1] + 0x100 * part@[2]
                        + part@[3]) as u32,
                })
            },
            Awaiting::Payload { kind, length } => {
                &&& wanted == length
                &&& r is Some
                &&& r->Some_0.kind == kind
                &&& r->Some_0.payload@ == part@
                &&& *final(awaiting) == Awaiting::Kind
            },
        },
{
    network::bytes_spell(part@);
}

/// A version is spelled by its four fields: a number and three texts, each after a byte that tells
/// its place and, for a text, its length.
pub proof fn versions_are_spelled(v: &Version, r: Vec<u8>)
    requires
        call_ensures(Version::write, (v,), r),
    ensures
        ({
            let a = utf8::encode_utf8(v.release@);
            let b = utf8::encode_utf8(v.os@);
            let c = utf8::encode_utf8(v.os_version@);
            r@ == seq![0x08u8] + wire::base128(v.version as nat) + seq![0x12u8] + wire::base128(
                a.len(),
            ) + a + seq![0x1Au8] + wire::base128(b.len()) + b + seq![0x22u8] + wire::base128(
                c.len(),
            ) + c
        }),
{
    let a = utf8::encode_utf8(v.release@);
    let b = utf8::encode_utf8(v.os@);
    let c = utf8::encode_utf8(v.os_version@);
    wire::numbers_are_spelled(0x08);
    wire::numbers_are_spelled(0x12);
    wire::numbers_are_spelled(0x1A);
    wire::numbers_are_spelled(0x22);
    assert(r@ =~= seq![0x08u8] + wire::base128(v.version as nat) + seq![0x12u8] + wire::base128(
        a.len(),
    ) + a + seq![0x1Au8] + wire::base128(b.len()) + b + seq![0x22u8] + wire::base128(c.len()) + c);
}

/// Credentials are spelled by the name, after a byte that tells its place and its length, and by
/// whether Opus is spoken.
pub proof fn credentials_are_spelled(a: &Authenticate, r: Vec<u8>)
    requires
        call_ensures(Authenticate::write, (a,), r),
    ensures
        ({
            let name = utf8::encode_utf8(a.username@);
            r@ == seq![0x0Au8] + wire::base128(name.len()) + name + if a.opus {
                seq![0x28u8, 1u8]
            } else {
                seq![0x28u8, 0u8]
            }
        }),
{
    let name = utf8::encode_utf8(a.username@);
    wire::numbers_are_spelled(0x0A);
    wire::numbers_are_spelled(0x28);
    wire::numbers_are_spelled(0);
    wire::numbers_are_spelled(1);
    assert(r@ =~= seq![0x0Au8] + wire::base128(name.len()) + name + if a.opus {
        seq![0x28u8, 1u8]
    } else {
        seq![0x28u8, 0u8]
    });
}

/// A sign of life is spelled by its time, after a byte that tells its place, or by nothing.
pub proof fn pings_are_spelled(p: &Ping, r: Vec<u8>)
    requires
        call_ensures(Ping::write, (p,), r),
    ensures
        p.timestamp is None ==> r@.len() == 0,
        p.timestamp matches Some(t) ==> r@ == seq![0x08u8] + wire::base128(t as nat),
{
    wire::numbers_are_spelled(0x08);
}

/// The session of a message is the number in its last field 1, cut to 32 bits, whatever fields of
/// other numbers stand before or after it; zero where it has none. A message that is no sequence
/// of fields, or in which some field 1 holds no number, is refused.
pub proof fn session_is_the_last_first_field(
    payload: &[u8],
    r: Result<u32, WireError>,
    fields: Seq<wire::Field>,
    i: int,
)
    requires
        call_ensures(parse_session, (payload,), r),
        wire::fields_of(payload@) == Some(fields),
    ensures
        r == session_of(payload@),
        r is Err <==> exists|j: int|
            0 <= j < fields.len() && (#[trigger] fields[j]).number == 1 && !(
            fields[j].value is Varint),
        r matches Err(e) ==> e == WireError::WireType,
        r is Ok && 0 <= i < fields.len() && fields[i].number == 1 && (forall|j: int|
            i < j < fields.len() ==> (#[trigger] fields[j]).number != 1) ==> r->Ok_0
            == fields[i].value->Varint_0 as nat % 0x1_0000_0000,
        r is Ok && (forall|j: int|
            0 <= j < fields.len() ==> (#[trigger] fields[j]).number != 1) ==> r->Ok_0 == 0,
{
    if 0 <= i < fields.len() && fields[i].number == 1 && (forall|j: int|
        i < j < fields.len() ==> (#[trigger] fields[j]).number != 1) {
        wire::lemma_last_number(fields, 1, i);
    }
    if forall|j: int| 0 <= j < fields.len() ==> (#[trigger] fields[j]).number != 1 {
        wire::lemma_no_number(fields, 1);
    }
}

/// The key, the client's nonce and the server's nonce of a message are the bytes in its last
/// fields 1, 2 and 3, whatever other fields stand around them, and empty where it has none. They
/// are refused exactly where some such field holds no bytes.
pub proof fn keys_are_the_last_fields(
    payload: &[u8],
    r: Result<CryptSetup, WireError>,
    fields: Seq<wire::Field>,
    number: u32,
    i: int,
)
    requires
        call_ensures(CryptSetup::parse, (payload,), r),
        wire::fields_of(payload@) == Some(fields),
        1 <= number <= 3,
    ensures
        r is Ok ==> crypt_setup_of(payload@) == Ok::<_, WireError>(
            (r->Ok_0.key@, r->Ok_0.client_nonce@, r->Ok_0.server_nonce@),
        ),
        r is Err ==> crypt_setup_of(payload@) is Err,
        r is Err <==> exists|j: int|
            0 <= j < fields.len() && 1 <= (#[trigger] fields[j]).number <= 3 && !(
            fields[j].value is Bytes),
        r matches Err(e) ==> e == WireError::WireType,
        ({
            let read = if number == 1 {
                r->Ok_0.key@
            } else if number == 2 {
                r->Ok_0.client_nonce@
            } else {
                r->Ok_0.server_nonce@
            };
            &&& r is Ok && 0 <= i < fields.len() && fields[i].number == number && (forall|j: int|
                i < j < fields.len() ==> (#[trigger] fields[j]).number != number) ==> read
                == fields[i].value->Bytes_0
            &&& r is Ok && (forall|j: int|
                0 <= j < fields.len() ==> (#[trigger] fields[j]).number != number) ==> read.len()
                == 0
        }),
{
    if exists|j: int|
        0 <= j < fields.len() && 1 <= (#[trigger] fields[j]).number <= 3 && !(
        fields[j].value is Bytes) {
        let j = choose|j: int|
            0 <= j < fields.len() && 1 <= (#[trigger] fields[j]).number <= 3 && !(
            fields[j].value is Bytes);
        assert(!wire::holds_bytes(fields, fields[j].number));
    }
    if 0 <= i < fields.len() && fields[i].number == number && (forall|j: int|
        i < j < fields.len() ==> (#[trigger] fields[j]).number != number) {
        wire::lemma_last_number(fields, number, i);
    }
    if forall|j: int| 0 <= j < fields.len() ==> (#[trigger] fields[j]).number != number {
        wire::lemma_no_number(fields, number);
    }
}

/// A message that is no sequence of fields is refused wherever its fields matter.
pub proof fn malformed_messages_are_refused(
    payload: &[u8],
    session: Result<u32, WireError>,
    setup: Result<CryptSetup, WireError>,
)
    requires
        wire::fields_of(payload@) is None,
        call_ensures(parse_session, (payload,), session),
        call_ensures(CryptSetup::parse, (payload,), setup),
    ensures
        session == Err::<u32, WireError>(WireError::Malformed),
        setup == Err::<CryptSetup, WireError>(WireError::Malformed),
{
}

/// What a client takes from a message of each kind: its own session from kind 5, a user from kind
/// 9, the keys from kind 15, nothing from the other kinds that it knows, whose fields only have to
/// be there, and nothing at all from any other kind.
pub proof fn kinds_are_told_apart(kind: u16, payload: &[u8], r: Result<Message, WireError>)
    requires
        call_ensures(Message::parse, (kind, payload), r),
    ensures
        kind == 0 || kind == 3 || kind == 7 || kind == 8 || kind == 11 || kind == 20 || kind == 21
            || kind == 24 ==> (r is Ok <==> wire::fields_of(payload@) is Some) && (r is Ok ==> r->Ok_0
            == Message::Plain) && (r is Err ==> r->Err_0 == WireError::Malformed),
        kind == 5 ==> match session_of(payload@) {
            Ok(id) => r == Ok::<Message, WireError>(Message::ServerSync { session: id }),
            Err(e) => r == Err::<Message, WireError>(e),
        },
        kind == 9 ==> match session_of(payload@) {
            Ok(id) => r == Ok::<Message, WireError>(Message::UserState { session: id }),
            Err(e) => r == Err::<Message, WireError>(e),
        },
        kind == 15 ==> match crypt_setup_of(payload@) {
            Ok((key, client_nonce, server_nonce)) => {
                &&& r is Ok
                &&& r->Ok_0 is CryptSetup
                &&& r->Ok_0->setup.key@ == key
                &&& r->Ok_0->setup.client_nonce@ == client_nonce
                &&& r->Ok_0->setup.server_nonce@ == server_nonce
            },
            Err(e) => r == Err::<Message, WireError>(e),
        },
        kind != 0 && kind != 3 && kind != 5 && kind != 7 && kind != 8 && kind != 9 && kind != 11
            && kind != 15 && kind != 20 && kind != 21 && kind != 24 ==> r == Ok::<
            Message,
            WireError,
        >(Message::Unknown),
{
}

} // verus!
