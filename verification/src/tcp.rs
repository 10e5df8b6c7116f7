//! The control channel.

use crate::clock;
use crate::mumble;
use crate::mumble::{packet, Awaiting, CryptSetup, Message, Packet, Ping};
use crate::network;
use crate::session;
use crate::session::{Remote, Session};
use crate::udp;
use crate::wire;
use crate::wire::WireError;
use vstd::prelude::*;

verus! {

/// Why a packet cannot be handled.
#[derive(Clone, Copy, Debug, PartialEq, Eq, Structural)]
pub enum TcpError {
    /// The message in it cannot be read.
    Message(WireError),
    /// A voice packet without a first byte.
    EmptyTunnel,
    /// A voice packet that is neither Opus nor a sign of life.
    AudioType,
}

/// What a client takes from the packet of kind `kind` with the payload `payload`, on a connection
/// whose sound travels by datagrams.
pub open spec fn effect_of(kind: u16, payload: Seq<u8>) -> Result<mumble::Content, TcpError> {
    if kind == mumble::UDP_TUNNEL {
        if payload.len() == 0 {
            Err(TcpError::EmptyTunnel)
        } else if udp::header_type(payload[0]) == udp::OPUS || udp::header_type(payload[0])
            == udp::PING {
            Ok(mumble::Content::Plain)
        } else {
            Err(TcpError::AudioType)
        }
    } else {
        match mumble::content_of(kind, payload) {
            Ok(content) => Ok(content),
            Err(e) => Err(TcpError::Message(e)),
        }
    }
}

/// The client's session after it has taken `content`.
pub open spec fn local_after(local: u64, content: mumble::Content) -> u64 {
    match content {
        mumble::Content::ServerSync { session } => session as u64,
        _ => local,
    }
}

/// The known users after the client has taken `content`.
pub open spec fn remotes_after(
    remotes: Map<u64, Remote>,
    content: mumble::Content,
) -> Map<u64, Remote> {
    match content {
        mumble::Content::UserState { session } => session::with_remote(remotes, session as u64),
        _ => remotes,
    }
}

/// Whether the packet of kind `kind` with the payload `payload` takes the session from `before` to
/// `after` with the result `r`. A packet that cannot be handled changes nothing.
pub open spec fn handled(
    before: Session,
    kind: u16,
    payload: Seq<u8>,
    after: Session,
    r: Result<Option<CryptSetup>, TcpError>,
) -> bool {
    match effect_of(kind, payload) {
        Ok(content) => {
            &&& r is Ok
            &&& after.local.id == local_after(before.local.id, content)
            &&& after.remotes@ == remotes_after(before.remotes@, content)
            &&& match content {
                mumble::Content::CryptSetup { key, client_nonce, server_nonce } => {
                    &&& r->Ok_0 is Some
                    &&& r->Ok_0->Some_0.key@ == key
                    &&& r->Ok_0->Some_0.client_nonce@ == client_nonce
                    &&& r->Ok_0->Some_0.server_nonce@ == server_nonce
                },
                _ => r->Ok_0 is None,
            }
        },
        Err(e) => r == Err::<Option<CryptSetup>, TcpError>(e) && after == before,
    }
}

/// Handles a packet. A key exchange is handed on.
pub fn tcp_recv(session: &mut Session, received: Packet) -> (r: Result<
    Option<CryptSetup>,
    TcpError,
>)
    requires
        old(session).wf(),
    ensures
        final(session).wf(),
        handled(*old(session), received.kind, received.payload@, *final(session), r),
{
    if received.kind == mumble::UDP_TUNNEL {
        if received.payload.len() == 0 {
            return Err(TcpError::EmptyTunnel);
        }
        let type_ = (received.payload[0] / 32) as u32;
        return if type_ == udp::OPUS || type_ == udp::PING {
            Ok(None)
        } else {
            Err(TcpError::AudioType)
        };
    }
    match Message::parse(received.kind, received.payload.as_slice()) {
        Ok(Message::ServerSync { session: id }) => {
            session.local.id = id as u64;
            Ok(None)
        },
        Ok(Message::UserState { session: id }) => {
            session.factory(id as u64);
            Ok(None)
        },
        Ok(Message::CryptSetup { setup }) => Ok(Some(setup)),
        Ok(Message::Plain) => Ok(None),
        Ok(Message::Unknown) => Ok(None),
        Err(e) => Err(TcpError::Message(e)),
    }
}

/// How far the control channel has been read, and what is known of the conversation.
pub struct TcpState {
    pub awaiting: Awaiting,
    pub session: Session,
}

/// Takes the next part of the control channel, of the length that `state.awaiting` wants. The
/// last part of a packet has the packet handled; a key exchange is handed on.
pub fn try_tcp_recv_loop(state: &mut TcpState, part: Vec<u8>) -> (r: Result<
    Option<CryptSetup>,
    TcpError,
>)
    requires
        old(state).session.wf(),
        part@.len() == old(state).awaiting.wants(),
    ensures
        final(state).session.wf(),
        final(state).awaiting == old(state).awaiting.after(part@).0,
        match old(state).awaiting.after(part@).1 {
            Some((kind, payload)) => handled(
                old(state).session,
                kind,
                payload,
                final(state).session,
                r,
            ),
            None => r == Ok::<Option<CryptSetup>, TcpError>(None) && final(state).session == old(
                state,
            ).session,
        },
{
    match state.awaiting.receive(part) {
        Some(received) => tcp_recv(&mut state.session, received),
        None => Ok(None),
    }
}

/// Takes the next part of the control channel, as `try_tcp_recv_loop` does, where the packet that
/// it completes can be handled.
pub fn tcp_recv_loop(state: &mut TcpState, part: Vec<u8>) -> (r: Option<CryptSetup>)
    requires
        old(state).session.wf(),
        part@.len() == old(state).awaiting.wants(),
        old(state).awaiting.after(part@).1 matches Some((kind, payload)) ==> effect_of(
            kind,
            payload,
        ) is Ok,
    ensures
        final(state).session.wf(),
        final(state).awaiting == old(state).awaiting.after(part@).0,
        match old(state).awaiting.after(part@).1 {
            Some((kind, payload)) => handled(
                old(state).session,
                kind,
                payload,
                final(state).session,
                Ok(r),
            ),
            None => r is None && final(state).session == old(state).session,
        },
{
    match try_tcp_recv_loop(state, part) {
        Ok(setup) => setup,
        Err(_) => None,
    }
}

/// The packet of the sign of life of the time `timestamp`.
pub fn tcp_ping_at(timestamp: u64) -> (r: Vec<u8>)
    ensures
        r@ == mumble::packet_bytes(mumble::PING, mumble::ping_bytes(Some(timestamp))),
{
    let message = Ping { timestamp: Some(timestamp) }.write();
    packet(mumble::PING, message.as_slice())
}

/// The packet of the sign of life of this moment.
pub fn tcp_ping() -> (r: Vec<u8>)
    ensures
        exists|timestamp: u64|
            timestamp <= 0x7FFF_FFFF_FFFF_FFFF && r@ == #[trigger] mumble::packet_bytes(
                mumble::PING,
                mumble::ping_bytes(Some(timestamp)),
            ),
{
    tcp_ping_at(clock::unix_timestamp())
}

/// A key exchange that the server sends hands on its key and nonces, and changes nobody's session.
pub proof fn key_exchange_is_handed_on(
    key: Seq<u8>,
    client_nonce: Seq<u8>,
    server_nonce: Seq<u8>,
)
    requires
        key.len() <= u32::MAX,
        client_nonce.len() <= u32::MAX,
        server_nonce.len() <= u32::MAX,
    ensures
        ({
            let message = wire::bytes_field(1, key) + wire::bytes_field(2, client_nonce)
                + wire::bytes_field(3, server_nonce);
            let content = mumble::Content::CryptSetup { key, client_nonce, server_nonce };
            &&& effect_of(mumble::CRYPT_SETUP, message) == Ok::<_, TcpError>(content)
            &&& forall|local: u64| local_after(local, content) == local
            &&& forall|remotes: Map<u64, Remote>| remotes_after(remotes, content) == remotes
        }),
{
    mumble::crypt_setup_is_read(key, client_nonce, server_nonce);
}

/// A voice packet on the control channel is refused exactly where it is empty or the top three bits
/// of its first byte tell neither Opus nor a sign of life. Its target and its other bytes do not
/// matter, and where it is let through it changes nothing.
pub proof fn tunnel_is_let_through(payload: Seq<u8>)
    ensures
        effect_of(mumble::UDP_TUNNEL, payload) is Ok <==> payload.len() > 0 && (payload[0] & 0xE0
            == 0x80 || payload[0] & 0xE0 == 0x20),
        effect_of(mumble::UDP_TUNNEL, payload) matches Ok(content) ==> content
            == mumble::Content::Plain && (forall|local: u64| local_after(local, content) == local)
            && (forall|remotes: Map<u64, Remote>| remotes_after(remotes, content) == remotes),
{
    if payload.len() > 0 {
        let b = payload[0];
        assert(b & 0xE0 == 0x80 <==> b / 32 == 4) by (bit_vector);
        assert(b & 0xE0 == 0x20 <==> b / 32 == 1) by (bit_vector);
    }
}

/// The session that the server assigns becomes the client's own.
pub proof fn session_is_taken(local: u64, id: u32)
    ensures
        ({
            let message = wire::number_field(1, id as u64);
            let content = mumble::Content::ServerSync { session: id };
            &&& effect_of(mumble::SERVER_SYNC, message) == Ok::<_, TcpError>(content)
            &&& local_after(local, content) == id
        }),
{
    mumble::session_is_read(id);
}

/// A user that the server tells of is known from then on.
pub proof fn user_becomes_known(remotes: Map<u64, Remote>, id: u32)
    ensures
        ({
            let message = wire::number_field(1, id as u64);
            let content = mumble::Content::UserState { session: id };
            &&& effect_of(mumble::USER_STATE, message) == Ok::<_, TcpError>(content)
            &&& remotes_after(remotes, content).contains_key(id as u64)
        }),
{
    mumble::session_is_read(id);
}

/// Whatever the client takes from a packet, it forgets no user.
pub proof fn no_user_is_forgotten(
    remotes: Map<u64, Remote>,
    content: mumble::Content,
    known: u64,
)
    requires
        remotes.contains_key(known),
    ensures
        remotes_after(remotes, content).contains_key(known),
        remotes_after(remotes, content)[known] == remotes[known],
{
}

/// What a packet does on the control channel, kind by kind: a ServerSync (5) gives the client its
/// session, a UserState (9) makes a user known, a CryptSetup (15) hands on its keys, and no other
/// packet changes anything. A refused one changes nothing either.
pub proof fn packets_are_followed(
    session: &mut Session,
    received: Packet,
    r: Result<Option<CryptSetup>, TcpError>,
    other: u64,
)
    requires
        old(session).wf(),
        call_ensures(tcp_recv, (session, received), r),
    ensures
        received.kind != 5 || r is Err ==> final(session).local.id == old(session).local.id,
        received.kind != 9 || r is Err ==> final(session).remotes@ == old(session).remotes@,
        r is Ok && r->Ok_0 is Some ==> received.kind == 15,
        received.kind == 5 ==> match mumble::session_of(received.payload@) {
            Ok(id) => r is Ok && final(session).local.id == id,
            Err(e) => r == Err::<Option<CryptSetup>, TcpError>(TcpError::Message(e)),
        },
        received.kind == 9 ==> match mumble::session_of(received.payload@) {
            Ok(id) => {
                &&& r is Ok
                &&& final(session).remotes@.contains_key(id as u64)
                &&& final(session).remotes@[id as u64].id == id
                &&& other != id ==> (final(session).remotes@.contains_key(other) <==> old(
                    session).remotes@.contains_key(other))
                &&& old(session).remotes@.contains_key(other) ==> final(session).remotes@[other]
                    == old(session).remotes@[other]
            },
            Err(e) => r == Err::<Option<CryptSetup>, TcpError>(TcpError::Message(e)),
        },
        received.kind == 15 ==> match mumble::crypt_setup_of(received.payload@) {
            Ok((key, client_nonce, server_nonce)) => {
                &&& r is Ok
                &&& r->Ok_0 is Some
                &&& r->Ok_0->Some_0.key@ == key
                &&& r->Ok_0->Some_0.client_nonce@ == client_nonce
                &&& r->Ok_0->Some_0.server_nonce@ == server_nonce
            },
            Err(e) => r == Err::<Option<CryptSetup>, TcpError>(TcpError::Message(e)),
        },
        received.kind == 0 || received.kind == 3 || received.kind == 7 || received.kind == 8
            || received.kind == 11 || received.kind == 20 || received.kind == 21 || received.kind
            == 24 ==> r == if wire::fields_of(received.payload@) is Some {
            Ok::<Option<CryptSetup>, TcpError>(None)
        } else {
            Err(TcpError::Message(WireError::Malformed))
        },
        received.kind == 1 && received.payload@.len() == 0 ==> r == Err::<
            Option<CryptSetup>,
            TcpError,
        >(TcpError::EmptyTunnel),
        received.kind == 1 && received.payload@.len() > 0 ==> r == if received.payload@[0] & 0xE0
            == 0x80 || received.payload@[0] & 0xE0 == 0x20 {
            Ok::<Option<CryptSetup>, TcpError>(None)
        } else {
            Err(TcpError::AudioType)
        },
        received.kind == 2 || received.kind == 4 || received.kind == 6 || received.kind == 10 || (12
            <= received.kind <= 14) || (16 <= received.kind <= 19) || received.kind == 22
            || received.kind == 23 || received.kind >= 25 ==> r == Ok::<
            Option<CryptSetup>,
            TcpError,
        >(None),
{
    if received.kind == 1 {
        tunnel_is_let_through(received.payload@);
    }
}

/// The control channel is read in parts: the last part of a packet does what the packet does, and
/// the other parts nothing.
pub proof fn parts_are_followed(
    state: &mut TcpState,
    part: Vec<u8>,
    r: Result<Option<CryptSetup>, TcpError>,
)
    requires
        old(state).session.wf(),
        part@.len() == old(state).awaiting.wants(),
        call_ensures(try_tcp_recv_loop, (state, part), r),
    ensures
        match old(state).awaiting {
            Awaiting::Kind => {
                &&& final(state).awaiting == (Awaiting::Length {
                    kind: (0x100 * part@[0] + part@[1]) as u16,
                })
                &&& r == Ok::<Option<CryptSetup>, TcpError>(None)
                &&& final(state).session == old(state).session
            },
            Awaiting::Length { kind } => {
                &&& final(state).awaiting == (Awaiting::Payload {
                    kind,
                    length: (0x100_0000 * part@[0] + 0x1_0000 * part@[1] + 0x100 * part@[2]
                        + part@[3]) as u32,
                })
                &&& r == Ok::<Option<CryptSetup>, TcpError>(None)
                &&& final(state).session == old(state).session
            },
            Awaiting::Payload { kind, .. } => {
                &&& final(state).awaiting == Awaiting::Kind
                &&& kind == 5 && mumble::session_of(part@) is Ok ==> final(state).session.local.id
                    == mumble::session_of(part@)->Ok_0
                &&& kind == 9 && mumble::session_of(part@) is Ok ==> final(
                    state).session.remotes@.contains_key(mumble::session_of(part@)->Ok_0 as u64)
                &&& kind == 15 && mumble::crypt_setup_of(part@) is Ok ==> r is Ok && r->Ok_0 is Some
                    && (
                r->Ok_0->Some_0.key@,
                r->Ok_0->Some_0.client_nonce@,
                r->Ok_0->Some_0.server_nonce@,
                ) == mumble::crypt_setup_of(part@)->Ok_0
                &&& kind != 5 ==> final(state).session.local.id == old(state).session.local.id
                &&& kind != 9 ==> final(state).session.remotes@ == old(state).session.remotes@
                &&& kind != 15 && r is Ok ==> r->Ok_0 is None
            },
        },
{
    network::bytes_spell(part@);
}

/// A sign of life is a packet of kind 3 with its time.
pub proof fn pings_are_packed(timestamp: u64, r: Vec<u8>)
    requires
        call_ensures(tcp_ping_at, (timestamp,), r),
    ensures
        r@.len() == 7 + wire::base128(timestamp as nat).len(),
        r@[0] == 0 && r@[1] == 3 && r@[2] == 0 && r@[3] == 0 && r@[4] == 0,
        r@[5] == 1 + wire::base128(timestamp as nat).len(),
        r@.skip(6) == seq![0x08u8] + wire::base128(timestamp as nat),
{
    let payload = seq![0x08u8] + wire::base128(timestamp as nat);
    wire::numbers_are_spelled(0x08);
    wire::lemma_base128_len(timestamp);
    assert(mumble::ping_bytes(Some(timestamp)) =~= payload);
    mumble::lemma_framed(3, payload);
}

/// Where the packet can be handled, the part that completes it does the same.
pub proof fn handled_parts_are_followed(state: &mut TcpState, part: Vec<u8>, r: Option<CryptSetup>)
    requires
        old(state).session.wf(),
        call_ensures(tcp_recv_loop, (state, part), r),
        old(state).awaiting matches Awaiting::Payload { kind, .. } ==> effect_of(kind, part@) is Ok,
    ensures
        match old(state).awaiting {
            Awaiting::Payload { kind, .. } => {
                &&& final(state).awaiting == Awaiting::Kind
                &&& kind == 5 ==> final(state).session.local.id == mumble::session_of(part@)->Ok_0
                &&& kind == 9 ==> final(state).session.remotes@.contains_key(
                    mumble::session_of(part@)->Ok_0 as u64,
                )
                &&& kind == 15 ==> r is Some && (
                r->Some_0.key@,
                r->Some_0.client_nonce@,
                r->Some_0.server_nonce@,
                ) == mumble::crypt_setup_of(part@)->Ok_0
                &&& kind != 5 ==> final(state).session.local.id == old(state).session.local.id
                &&& kind != 9 ==> final(state).session.remotes@ == old(state).session.remotes@
                &&& kind != 15 ==> r is None
            },
            _ => r is None && final(state).session == old(state).session && !(final(
                state).awaiting is Kind),
        },
{
}

} // verus!
