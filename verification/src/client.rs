//! The client whose sound travels on the control channel.

use crate::clock;
use crate::cursor::{ByteSource, Cursor};
use crate::mumble;
use crate::mumble::{packet, Awaiting, Message, Packet, Ping};
use crate::network;
use crate::pcm;
use crate::text;
use crate::udp;
use crate::util;
use crate::util::OpusFrame;
use crate::varint;
use crate::wire;
use crate::wire::WireError;
use std::collections::HashMap;
use vstd::prelude::*;

verus! {

broadcast use vstd::std_specs::hash::group_hash_axioms;

/// The samples that a segment may decode to.
pub const SEGMENT_SAMPLES: usize = 960;

/// How many samples are compressed together: ten milliseconds of one channel at 48 kHz.
pub const CHUNK_SAMPLES: usize = 480;

/// How many bytes the encoder may make of a chunk.
pub const MAX_FRAME: usize = 50000;

/// Another user.
pub struct RemoteSession {
    pub session: u64,
    pub sequence: u64,
}

/// The client itself.
pub struct LocalSession {
    pub session: u64,
}

/// Why a packet cannot be handled.
#[derive(Clone, Copy, Debug, PartialEq, Eq, Structural)]
pub enum ClientError {
    /// The message in it cannot be read.
    Message(WireError),
    /// The message is of an unknown kind.
    UnknownKind,
    /// A voice packet without a first byte.
    EmptyTunnel,
    /// A voice packet that is neither Opus nor a sign of life.
    AudioType,
    /// A voice packet that ends before its sound.
    ShortVoice,
    /// A voice packet with a segment that is cut short.
    ShortSegment,
}

/// The packet of a sign of life without a time.
pub fn mumble_ping() -> (r: Vec<u8>)
    ensures
        r@ == mumble::packet_bytes(mumble::PING, mumble::ping_bytes(None)),
{
    let message = Ping { timestamp: None }.write();
    packet(mumble::PING, message.as_slice())
}

/// Whether `r` holds the segments of the frame `frame`.
pub open spec fn are_segments(frame: Seq<u8>, r: OpusFrame) -> bool {
    &&& r.data@ == util::segments_of(frame).data
    &&& r.segments == util::segments_of(frame).count
    &&& r.done == util::segments_of(frame).done
    &&& r.complete
}

/// The segments of a voice packet, none of which is cut short.
pub fn mumble_decode(frame: Vec<u8>) -> (r: OpusFrame)
    requires
        util::segments_complete(frame@),
    ensures
        are_segments(frame@, r),
{
    util::opus_segments(frame)
}

/// The segments of a voice packet, `None` where one is cut short.
pub fn try_mumble_decode(frame: Vec<u8>) -> (r: Option<OpusFrame>)
    ensures
        r is Some == util::segments_complete(frame@),
        r is Some ==> are_segments(frame@, r->Some_0),
{
    let segments = util::opus_segments(frame);
    if segments.complete {
        Some(segments)
    } else {
        None
    }
}

/// The known users once the user `id` is known too.
pub open spec fn with_session(
    sessions: Map<u64, RemoteSession>,
    id: u64,
) -> Map<u64, RemoteSession> {
    if sessions.contains_key(id) {
        sessions
    } else {
        sessions.insert(id, RemoteSession { session: id, sequence: 0 })
    }
}

/// Makes the user known, unless it already is.
pub fn manage_remote_sessions(session_id: u64, sessions: &mut HashMap<u64, RemoteSession>)
    ensures
        final(sessions)@ == with_session(old(sessions)@, session_id),
{
    if !sessions.contains_key(&session_id) {
        sessions.insert(session_id, RemoteSession { session: session_id, sequence: 0 });
    }
}

/// What a packet does.
pub ghost enum Effect {
    /// Nothing.
    Nothing,
    /// The client gets a session.
    Local { id: u32 },
    /// A user is heard.
    Heard { session: u64, frame: Seq<u8> },
}

/// What the packet of kind `kind` with the payload `payload` does.
pub open spec fn effect_of(kind: u16, payload: Seq<u8>) -> Result<Effect, ClientError> {
    if kind == mumble::UDP_TUNNEL {
        if payload.len() == 0 {
            Err(ClientError::EmptyTunnel)
        } else if udp::header_type(payload[0]) == udp::OPUS {
            match udp::voice_of(payload) {
                Some(voice) => if util::segments_complete(voice.frame) {
                    Ok(Effect::Heard { session: voice.session, frame: voice.frame })
                } else {
                    Err(ClientError::ShortSegment)
                },
                None => Err(ClientError::ShortVoice),
            }
        } else if udp::header_type(payload[0]) == udp::PING {
            Ok(Effect::Nothing)
        } else {
            Err(ClientError::AudioType)
        }
    } else {
        match mumble::content_of(kind, payload) {
            Ok(mumble::Content::Unknown) => Err(ClientError::UnknownKind),
            Ok(mumble::Content::ServerSync { session }) => Ok(Effect::Local { id: session }),
            Ok(_) => Ok(Effect::Nothing),
            Err(e) => Err(ClientError::Message(e)),
        }
    }
}

/// Sound to decode and to keep.
pub struct Heard {
    /// The user who is heard.
    pub remote: u64,
    /// The segments, each of which decodes to at most `SEGMENT_SAMPLES` samples.
    pub segments: OpusFrame,
    /// The low half of the client's own session, under which the sound is kept.
    pub local: u32,
}

/// How far the control channel has been read, and what is known of the conversation.
pub struct ClientState {
    pub awaiting: Awaiting,
    pub local: LocalSession,
    pub remotes: HashMap<u64, RemoteSession>,
}

/// Whether the packet of kind `kind` with the payload `payload` takes the client from `before` to
/// `after` with the result `r`. A packet that cannot be handled changes nothing.
pub open spec fn handled(
    before: ClientState,
    kind: u16,
    payload: Seq<u8>,
    after: ClientState,
    r: Result<Option<Heard>, ClientError>,
) -> bool {
    match effect_of(kind, payload) {
        Ok(Effect::Nothing) => {
            &&& r == Ok::<Option<Heard>, ClientError>(None)
            &&& after.local == before.local
            &&& after.remotes == before.remotes
        },
        Ok(Effect::Local { id }) => {
            &&& r == Ok::<Option<Heard>, ClientError>(None)
            &&& after.local.session == id
            &&& after.remotes == before.remotes
        },
        Ok(Effect::Heard { session, frame }) => {
            &&& r is Ok
            &&& r->Ok_0 is Some
            &&& r->Ok_0->Some_0.remote == session
            &&& are_segments(frame, r->Ok_0->Some_0.segments)
            &&& r->Ok_0->Some_0.local == before.local.session as u32
            &&& after.local == before.local
            &&& after.remotes@ == with_session(before.remotes@, session)
        },
        Err(e) => {
            &&& r == Err::<Option<Heard>, ClientError>(e)
            &&& after.local == before.local
            &&& after.remotes == before.remotes
        },
    }
}

impl ClientState {
    /// Nothing has been read, nobody is known, and the client has no session.
    pub fn new() -> (r: ClientState)
        ensures
            r.awaiting == Awaiting::Kind,
            r.local.session == 0,
            r.remotes@ == Map::<u64, RemoteSession>::empty(),
    {
        ClientState {
            awaiting: Awaiting::Kind,
            local: LocalSession { session: 0 },
            remotes: HashMap::new(),
        }
    }

    /// Handles a voice packet.
    fn hear(&mut self, payload: Vec<u8>) -> (r: Result<Option<Heard>, ClientError>)
        ensures
            final(self).awaiting == old(self).awaiting,
            handled(*old(self), mumble::UDP_TUNNEL, payload@, *final(self), r),
    {
        let ghost all = payload@;
        let mut rdr = Cursor::new(payload);
        let header = match rdr.read_byte() {
            Ok(header) => header,
            Err(_) => {
                return Err(ClientError::EmptyTunnel);
            },
        };
        let type_ = (header / 32) as u32;
        if type_ == udp::OPUS {
            assert(all =~= seq![header] + rdr.unread());
            let voice = match udp::read_voice(&mut rdr) {
                Ok(voice) => voice,
                Err(_) => {
                    return Err(ClientError::ShortVoice);
                },
            };
            let segments = match try_mumble_decode(voice.frame) {
                Some(segments) => segments,
                None => {
                    return Err(ClientError::ShortSegment);
                },
            };
            manage_remote_sessions(voice.session, &mut self.remotes);
            let local = #[verifier::truncate]
            (self.local.session as u32);
            Ok(Some(Heard { remote: voice.session, segments, local }))
        } else if type_ == udp::PING {
            Ok(None)
        } else {
            Err(ClientError::AudioType)
        }
    }

    /// Handles a packet.
    pub fn mumble_recv(&mut self, received: Packet) -> (r: Result<Option<Heard>, ClientError>)
        ensures
            final(self).awaiting == old(self).awaiting,
            handled(*old(self), received.kind, received.payload@, *final(self), r),
    {
        if received.kind == mumble::UDP_TUNNEL {
            return self.hear(received.payload);
        }
        match Message::parse(received.kind, received.payload.as_slice()) {
            Ok(Message::ServerSync { session }) => {
                self.local = LocalSession { session: session as u64 };
                Ok(None)
            },
            Ok(Message::Unknown) => Err(ClientError::UnknownKind),
            Ok(_) => Ok(None),
            Err(e) => Err(ClientError::Message(e)),
        }
    }

    /// Takes the next part of the control channel, of the length that `self.awaiting` wants. The
    /// last part of a packet has the packet handled; what is heard is handed on.
    pub fn try_mumble_loop(&mut self, part: Vec<u8>) -> (r: Result<Option<Heard>, ClientError>)
        requires
            part@.len() == old(self).awaiting.wants(),
        ensures
            final(self).awaiting == old(self).awaiting.after(part@).0,
            match old(self).awaiting.after(part@).1 {
                Some((kind, payload)) => handled(*old(self), kind, payload, *final(self), r),
                None => {
                    &&& r == Ok::<Option<Heard>, ClientError>(None)
                    &&& final(self).local == old(self).local
                    &&& final(self).remotes == old(self).remotes
                },
            },
    {
        match self.awaiting.receive(part) {
            Some(received) => self.mumble_recv(received),
            None => Ok(None),
        }
    }

    /// Takes the next part of the control channel, as `try_mumble_loop` does, where the packet that
    /// it completes can be handled.
    pub fn mumble_loop(&mut self, part: Vec<u8>) -> (r: Option<Heard>)
        requires
            part@.len() == old(self).awaiting.wants(),
            old(self).awaiting.after(part@).1 matches Some((kind, payload)) ==> effect_of(
                kind,
                payload,
            ) is Ok,
        ensures
            final(self).awaiting == old(self).awaiting.after(part@).0,
            match old(self).awaiting.after(part@).1 {
                Some((kind, payload)) => handled(*old(self), kind, payload, *final(self), Ok(r)),
                None => {
                    &&& r is None
                    &&& final(self).local == old(self).local
                    &&& final(self).remotes == old(self).remotes
                },
            },
    {
        match self.try_mumble_loop(part) {
            Ok(heard) => heard,
            Err(_) => None,
        }
    }
}

/// The sound of a user who has not finished, if any.
pub struct VoiceBuffer {
    pub writer: Option<Vec<u8>>,
}

impl VoiceBuffer {
    /// The sound so far.
    pub open spec fn held(&self) -> Seq<u8> {
        match self.writer {
            Some(writer) => writer@,
            None => Seq::empty(),
        }
    }

    /// Nothing has been said.
    pub fn new() -> (r: VoiceBuffer)
        ensures
            r.writer is None,
            r.held() == Seq::<u8>::empty(),
    {
        VoiceBuffer { writer: None }
    }

    /// Adds what was heard. At the end of what is said, all of it comes out and the buffer is
    /// empty again.
    pub fn voice_buffer(&mut self, msg: &[u8], done: bool) -> (r: Option<Vec<u8>>)
        ensures
            final(self).writer is None == done,
            final(self).held() == said_after(old(self).held(), msg@, done).0,
            (match r {
                Some(said) => Some(said@),
                None => None,
            }) == said_after(old(self).held(), msg@, done).1,
    {
        let mut writer = match self.writer.take() {
            Some(writer) => writer,
            None => Vec::new(),
        };
        writer.extend_from_slice(msg);
        assert(writer@ =~= old(self).held() + msg@);
        if done {
            Some(writer)
        } else {
            self.writer = Some(writer);
            None
        }
    }
}

/// The sound that is held, and what comes out, after `msg` has been added to `held`.
pub open spec fn said_after(held: Seq<u8>, msg: Seq<u8>, done: bool) -> (
    Seq<u8>,
    Option<Seq<u8>>,
) {
    if done {
        (Seq::empty(), Some(held + msg))
    } else {
        (held + msg, None)
    }
}

/// The sound that is held after the messages `msgs`, none of which ends what is said.
pub open spec fn held_after(held: Seq<u8>, msgs: Seq<Seq<u8>>) -> Seq<u8>
    decreases msgs.len(),
{
    if msgs.len() == 0 {
        held
    } else {
        said_after(held_after(held, msgs.drop_last()), msgs.last(), false).0
    }
}

/// What a user says comes out whole and in order, once the end is heard, and nothing of it stays
/// behind.
pub proof fn speech_is_kept_whole(msgs: Seq<Seq<u8>>, end: Seq<u8>)
    ensures
        held_after(Seq::empty(), msgs) == msgs.flatten(),
        said_after(held_after(Seq::empty(), msgs), end, true) == (
            Seq::<u8>::empty(),
            Some(msgs.push(end).flatten()),
        ),
    decreases msgs.len(),
{
    let none = Seq::<u8>::empty();
    if msgs.len() > 0 {
        speech_is_kept_whole(msgs.drop_last(), end);
        assert(msgs =~= msgs.drop_last().push(msgs.last()));
        msgs.drop_last().lemma_flatten_push(msgs.last());
    }
    assert(held_after(none, msgs) =~= msgs.flatten());
    msgs.lemma_flatten_push(end);
}

/// The name of the file that keeps what was said until `date`.
pub open spec fn file_name_of(session: u32, date: Seq<char>) -> Seq<char> {
    "incoming-"@ + text::decimal_of(session as nat) + "-"@ + date + ".raw"@
}

/// The name of the file that keeps what was said until `date`.
pub fn file_name_at(session: u32, date: &str) -> (r: String)
    ensures
        r@ == file_name_of(session, date@),
{
    let mut name = String::new();
    name.append("incoming-");
    name.append(text::decimal(session as u64).as_str());
    name.append("-");
    name.append(date);
    name.append(".raw");
    assert(name@ =~= file_name_of(session, date@));
    name
}

/// The name of the file that keeps what was said until now.
pub fn file_name(session: u32) -> (r: String)
    ensures
        exists|date: Seq<char>|
            clock::fits(clock::hyphenated(), date) && r@ == #[trigger] file_name_of(session, date),
{
    let date = clock::hyphenated_now();
    file_name_at(session, date.as_str())
}

/// The chunks of samples to compress, of a file of sound. A byte without a partner at its end is
/// left out.
pub fn say_something(pcm_data: &[u8]) -> (r: Vec<Vec<i16>>)
    ensures
        pcm::views(r@) == pcm::chunks_of(pcm::samples_of(pcm_data@), CHUNK_SAMPLES as nat),
{
    let samples = pcm::to_samples(pcm_data);
    pcm::to_chunks(samples.as_slice(), CHUNK_SAMPLES)
}

/// The packet of a compressed chunk.
pub open spec fn say_bytes(sequence: u64, frame: Seq<u8>) -> Seq<u8> {
    mumble::packet_bytes(mumble::UDP_TUNNEL, udp::voice_datagram(sequence, frame))
}

/// Whether `packets` are those of the compressed chunks `frames`, in order, with sequence numbers
/// that start after `start`.
pub open spec fn said_from(start: u64, frames: Seq<Vec<u8>>, packets: Seq<Vec<u8>>) -> bool {
    &&& start + frames.len() <= u64::MAX
    &&& packets.len() == frames.len()
    &&& forall|i: int|
        0 <= i < frames.len() ==> #[trigger] packets[i]@ == say_bytes(
            (start + 1 + i) as u64,
            frames[i]@,
        )
}

/// The packets of compressed chunks, the sequence numbers of which start after `start`.
pub fn say_frames_from(start: u64, frames: &Vec<Vec<u8>>) -> (r: Vec<Vec<u8>>)
    requires
        start + frames@.len() <= u64::MAX,
    ensures
        said_from(start, frames@, r@),
{
    let mut out: Vec<Vec<u8>> = Vec::new();
    let mut p = start;
    let mut i: usize = 0;
    while i < frames.len()
        invariant
            i <= frames@.len(),
            i == out@.len(),
            p == start + i,
            start + frames@.len() <= u64::MAX,
            forall|k: int|
                0 <= k < i ==> #[trigger] out@[k]@ == say_bytes(
                    (start + 1 + k) as u64,
                    frames@[k]@,
                ),
        decreases frames@.len() - i,
    {
        p = p + 1;
        let data = udp::voice_packet(p, frames[i].as_slice());
        out.push(packet(mumble::UDP_TUNNEL, data.as_slice()));
        i = i + 1;
    }
    out
}

/// Whether `r` is what becomes of the compressed chunks `frames` where the sequence numbers start
/// after `start`: their packets, or nothing where the numbers do not fit.
pub open spec fn said_at(start: u64, frames: Seq<Vec<u8>>, r: Option<Vec<Vec<u8>>>) -> bool {
    match r {
        Some(packets) => said_from(start, frames, packets@),
        None => start + frames.len() > u64::MAX,
    }
}

/// The packets of compressed chunks, the sequence numbers of which start after `start`, `None`
/// where they do not fit.
pub fn say_frames_at(start: u64, frames: &Vec<Vec<u8>>) -> (r: Option<Vec<Vec<u8>>>)
    ensures
        said_at(start, frames@, r),
{
    if frames.len() as u64 > u64::MAX - start {
        None
    } else {
        Some(say_frames_from(start, frames))
    }
}

/// The packets of compressed chunks, the sequence numbers of which start after the time of day,
/// `None` where they do not fit.
pub fn say_frames(frames: &Vec<Vec<u8>>) -> (r: Option<Vec<Vec<u8>>>)
    ensures
        exists|start: u64|
            start <= 0x7FFF_FFFF_FFFF_FFFF && #[trigger] said_at(start, frames@, r),
        frames@.len() <= 0x8000_0000_0000_0000 ==> r is Some,
{
    let start = clock::unix_timestamp();
    let r = say_frames_at(start, frames);
    assert(said_at(start, frames@, r));
    r
}

/// What one client says, and the server passes on with the speaker's session, another client hears
/// as it was.
pub proof fn speech_is_heard(session: u64, sequence: u64, frame: Seq<u8>)
    requires
        frame.len() < 0x2000,
    ensures
        ({
            let relayed = udp::relayed_datagram(session, sequence, frame);
            let effect = effect_of(mumble::UDP_TUNNEL, relayed);
            &&& effect is Ok
            &&& effect->Ok_0 is Heard
            &&& effect->Ok_0->session == session
            &&& util::segments_of(effect->Ok_0->frame) == (util::Segments {
                data: frame,
                count: 1,
                done: false,
            })
        }),
{
    udp::sound_arrives(session, sequence, frame);
}

/// What decodes the sound of each user, as far as one has been heard.
pub struct Decoders<D> {
    pub inner: HashMap<u64, D>,
}

impl<D> Decoders<D> {
    /// Nobody has been heard.
    pub fn new() -> (r: Decoders<D>)
        ensures
            r.inner@ == Map::<u64, D>::empty(),
    {
        Decoders { inner: HashMap::new() }
    }

    /// Takes out the decoder of the user `remote`, if there is one.
    pub fn take(&mut self, remote: u64) -> (r: Option<D>)
        ensures
            r == if old(self).inner@.contains_key(remote) {
                Some(old(self).inner@[remote])
            } else {
                None
            },
            final(self).inner@ == old(self).inner@.remove(remote),
    {
        let r = self.inner.remove(&remote);
        assert(self.inner@ =~= old(self).inner@.remove(remote));
        r
    }

    /// Keeps the decoder of the user `remote` for what the user says next.
    pub fn put(&mut self, remote: u64, decoder: D)
        ensures
            final(self).inner@ == old(self).inner@.insert(remote, decoder),
    {
        self.inner.insert(remote, decoder);
    }
}

/// The decoder of the user `user`: `fresh`, a new one, where the user has not been heard yet.
pub open spec fn decoder_of<D>(decoders: Map<u64, D>, fresh: D, user: u64) -> D {
    if decoders.contains_key(user) {
        decoders[user]
    } else {
        fresh
    }
}

/// The sound of the user `user`, and whether it ends what the user says, for each of the user's
/// voice packets among `packets`. Every voice packet goes through the decoder of its own speaker,
/// which is kept for the speaker's next packet. Other packets leave the decoders alone.
pub open spec fn heard_of<D>(
    packets: Seq<(u16, Seq<u8>)>,
    decoders: Map<u64, D>,
    fresh: D,
    decode: spec_fn(D, util::Segments) -> (D, Seq<u8>),
    user: u64,
) -> Seq<(Seq<u8>, bool)>
    decreases packets.len(),
{
    if packets.len() == 0 {
        Seq::empty()
    } else {
        let rest = packets.drop_first();
        match effect_of(packets[0].0, packets[0].1) {
            Ok(Effect::Heard { session, frame }) => {
                let segments = util::segments_of(frame);
                let (decoder, pcm) = decode(decoder_of(decoders, fresh, session), segments);
                let later = heard_of(
                    rest,
                    decoders.insert(session, decoder),
                    fresh,
                    decode,
                    user,
                );
                if session == user {
                    seq![(pcm, segments.done)] + later
                } else {
                    later
                }
            },
            _ => heard_of(rest, decoders, fresh, decode, user),
        }
    }
}

/// The frames of the voice packets of the user `user` among `packets`.
pub open spec fn frames_of(packets: Seq<(u16, Seq<u8>)>, user: u64) -> Seq<Seq<u8>>
    decreases packets.len(),
{
    if packets.len() == 0 {
        Seq::empty()
    } else {
        let rest = frames_of(packets.drop_first(), user);
        match effect_of(packets[0].0, packets[0].1) {
            Ok(Effect::Heard { session, frame }) if session == user => seq![frame] + rest,
            _ => rest,
        }
    }
}

/// The sound of the frames `frames` of one user, and whether each ends what the user says.
pub open spec fn heard_alone<D>(
    frames: Seq<Seq<u8>>,
    decoder: D,
    decode: spec_fn(D, util::Segments) -> (D, Seq<u8>),
) -> Seq<(Seq<u8>, bool)>
    decreases frames.len(),
{
    if frames.len() == 0 {
        Seq::empty()
    } else {
        let segments = util::segments_of(frames[0]);
        let (next, pcm) = decode(decoder, segments);
        seq![(pcm, segments.done)] + heard_alone(frames.drop_first(), next, decode)
    }
}

/// What is heard of a user comes of the user's own packets alone, as if nobody else had spoken.
pub proof fn heard_as_if_alone<D>(
    packets: Seq<(u16, Seq<u8>)>,
    decoders: Map<u64, D>,
    fresh: D,
    decode: spec_fn(D, util::Segments) -> (D, Seq<u8>),
    user: u64,
)
    ensures
        heard_of(packets, decoders, fresh, decode, user) == heard_alone(
            frames_of(packets, user),
            decoder_of(decoders, fresh, user),
            decode,
        ),
    decreases packets.len(),
{
    if packets.len() > 0 {
        let rest = packets.drop_first();
        match effect_of(packets[0].0, packets[0].1) {
            Ok(Effect::Heard { session, frame }) => {
                let (decoder, _) = decode(
                    decoder_of(decoders, fresh, session),
                    util::segments_of(frame),
                );
                heard_as_if_alone(rest, decoders.insert(session, decoder), fresh, decode, user);
                if session == user {
                    let frames = seq![frame] + frames_of(rest, user);
                    assert(frames.drop_first() =~= frames_of(rest, user));
                }
            },
            _ => {
                heard_as_if_alone(rest, decoders, fresh, decode, user);
            },
        }
    }
}

/// A packet other than a voice packet is refused as unknown exactly where its kind is not one of
/// those that a client knows.
pub proof fn unknown_kinds_are_refused(kind: u16, payload: Seq<u8>)
    requires
        kind != mumble::UDP_TUNNEL,
    ensures
        effect_of(kind, payload) == Err::<Effect, ClientError>(ClientError::UnknownKind) <==> !(
        mumble::is_plain(kind) || kind == mumble::SERVER_SYNC || kind == mumble::USER_STATE || kind
            == mumble::CRYPT_SETUP),
{
}

/// A voice packet is refused for its type exactly where the top three bits of its first byte tell
/// neither Opus nor a sign of life.
pub proof fn foreign_voices_are_refused(payload: Seq<u8>)
    requires
        payload.len() > 0,
    ensures
        effect_of(mumble::UDP_TUNNEL, payload) == Err::<Effect, ClientError>(
            ClientError::AudioType,
        ) <==> payload[0] & 0xE0 != 0x80 && payload[0] & 0xE0 != 0x20,
{
    let b = payload[0];
    assert(b & 0xE0 == 0x80 <==> b / 32 == 4) by (bit_vector);
    assert(b & 0xE0 == 0x20 <==> b / 32 == 1) by (bit_vector);
}

/// What the client hands on of a packet, put through the decoder of its speaker, is what is heard
/// of the packet. Where it hands on nothing, nothing is heard of it.
pub proof fn heard_is_handed_on<D>(
    before: ClientState,
    first: (u16, Seq<u8>),
    after: ClientState,
    r: Result<Option<Heard>, ClientError>,
    rest: Seq<(u16, Seq<u8>)>,
    decoders: Map<u64, D>,
    fresh: D,
    decode: spec_fn(D, util::Segments) -> (D, Seq<u8>),
    user: u64,
)
    requires
        handled(before, first.0, first.1, after, r),
    ensures
        heard_of(seq![first] + rest, decoders, fresh, decode, user) == match r {
            Ok(Some(heard)) => {
                let segments = util::Segments {
                    data: heard.segments.data@,
                    count: heard.segments.segments as nat,
                    done: heard.segments.done,
                };
                let (decoder, pcm) = decode(
                    decoder_of(decoders, fresh, heard.remote),
                    segments,
                );
                let later = heard_of(
                    rest,
                    decoders.insert(heard.remote, decoder),
                    fresh,
                    decode,
                    user,
                );
                if heard.remote == user {
                    seq![(pcm, heard.segments.done)] + later
                } else {
                    later
                }
            },
            _ => heard_of(rest, decoders, fresh, decode, user),
        },
{
    let packets = seq![first] + rest;
    assert(packets[0] == first);
    assert(packets.drop_first() =~= rest);
}

/// What others say leaves what is heard of a user as it was: two streams that hold the same voice
/// packets of the user, among whatever packets of others, sound the same as far as the user goes.
pub proof fn others_do_not_matter<D>(
    a: Seq<(u16, Seq<u8>)>,
    b: Seq<(u16, Seq<u8>)>,
    decoders: Map<u64, D>,
    fresh: D,
    decode: spec_fn(D, util::Segments) -> (D, Seq<u8>),
    user: u64,
)
    requires
        frames_of(a, user) == frames_of(b, user),
    ensures
        heard_of(a, decoders, fresh, decode, user) == heard_of(b, decoders, fresh, decode, user),
{
    heard_as_if_alone(a, decoders, fresh, decode, user);
    heard_as_if_alone(b, decoders, fresh, decode, user);
}

/// A voice packet on the control channel is heard with its speaker, the segments of its sound and
/// the client's own session, whatever was heard before. The speaker is known from then on, and
/// nothing else changes. A frame with a segment that is cut short is refused.
pub proof fn voices_are_heard(
    client: &mut ClientState,
    received: Packet,
    r: Result<Option<Heard>, ClientError>,
    header: u8,
    session: u64,
    session_bytes: Seq<u8>,
    sequence: u64,
    sequence_bytes: Seq<u8>,
    frame: Seq<u8>,
    other: u64,
)
    requires
        call_ensures(ClientState::mumble_recv, (client, received), r),
        received.kind == 1,
        header >> 5 == 4,
        varint::decode(session_bytes) == Some((session, session_bytes.len())),
        varint::decode(sequence_bytes) == Some((sequence, sequence_bytes.len())),
        received.payload@ == seq![header] + session_bytes + sequence_bytes + frame,
    ensures
        final(client).local.session == old(client).local.session,
        final(client).awaiting == old(client).awaiting,
        !util::segments_complete(frame) ==> r == Err::<Option<Heard>, ClientError>(
            ClientError::ShortSegment,
        ) && final(client).remotes@ == old(client).remotes@,
        util::segments_complete(frame) ==> {
            &&& r is Ok
            &&& r->Ok_0 is Some
            &&& r->Ok_0->Some_0.remote == session
            &&& r->Ok_0->Some_0.local == old(client).local.session & 0xFFFF_FFFF
            &&& r->Ok_0->Some_0.segments.data@ == util::segments_of(frame).data
            &&& r->Ok_0->Some_0.segments.segments == util::segments_of(frame).count
            &&& r->Ok_0->Some_0.segments.done == util::segments_of(frame).done
            &&& final(client).remotes@.contains_key(session)
            &&& !old(client).remotes@.contains_key(session) ==> final(
                client).remotes@[session].session == session && final(
                client).remotes@[session].sequence == 0
            &&& other != session ==> (final(client).remotes@.contains_key(other) <==> old(
                client).remotes@.contains_key(other))
            &&& old(client).remotes@.contains_key(other) ==> final(client).remotes@[other] == old(
                client).remotes@[other]
        },
{
    let local = old(client).local.session;
    assert(local as u32 == local & 0xFFFF_FFFF) by (bit_vector);
    assert(header / 32 == header >> 5) by (bit_vector);
    udp::voices_are_read(header, session, session_bytes, sequence, sequence_bytes, frame);
}

/// What every other packet does: a ServerSync (5) gives the client its session, and nothing else
/// changes anything. Voice packets that are empty, of another type or cut short, and kinds that a
/// client does not know, are refused.
pub proof fn other_packets_are_followed(
    client: &mut ClientState,
    received: Packet,
    r: Result<Option<Heard>, ClientError>,
)
    requires
        call_ensures(ClientState::mumble_recv, (client, received), r),
        received.kind == 1 && received.payload@.len() > 0 ==> received.payload@[0] >> 5 != 4
            || udp::voice_of(received.payload@) is None,
    ensures
        final(client).awaiting == old(client).awaiting,
        final(client).remotes@ == old(client).remotes@,
        r is Ok ==> r->Ok_0 is None,
        received.kind != 5 ==> final(client).local.session == old(client).local.session,
        received.kind == 5 ==> match mumble::session_of(received.payload@) {
            Ok(id) => r is Ok && final(client).local.session == id,
            Err(e) => r == Err::<Option<Heard>, ClientError>(ClientError::Message(e)) && final(
                client).local.session == old(client).local.session,
        },
        received.kind == 9 ==> match mumble::session_of(received.payload@) {
            Ok(_) => r is Ok,
            Err(e) => r == Err::<Option<Heard>, ClientError>(ClientError::Message(e)),
        },
        received.kind == 15 ==> match mumble::crypt_setup_of(received.payload@) {
            Ok(_) => r is Ok,
            Err(e) => r == Err::<Option<Heard>, ClientError>(ClientError::Message(e)),
        },
        received.kind == 0 || received.kind == 3 || received.kind == 7 || received.kind == 8
            || received.kind == 11 || received.kind == 20 || received.kind == 21 || received.kind
            == 24 ==> match wire::fields_of(received.payload@) {
            Some(_) => r is Ok,
            None => r == Err::<Option<Heard>, ClientError>(
                ClientError::Message(WireError::Malformed),
            ),
        },
        received.kind == 2 || received.kind == 4 || received.kind == 6 || received.kind == 10 || (12
            <= received.kind <= 14) || (16 <= received.kind <= 19) || received.kind == 22
            || received.kind == 23 || received.kind >= 25 ==> r == Err::<
            Option<Heard>,
            ClientError,
        >(ClientError::UnknownKind),
        received.kind == 1 ==> if received.payload@.len() == 0 {
            r == Err::<Option<Heard>, ClientError>(ClientError::EmptyTunnel)
        } else if received.payload@[0] >> 5 == 4 {
            r == Err::<Option<Heard>, ClientError>(ClientError::ShortVoice)
        } else if received.payload@[0] >> 5 == 1 {
            r is Ok
        } else {
            r == Err::<Option<Heard>, ClientError>(ClientError::AudioType)
        },
{
    if received.kind == 1 && received.payload@.len() > 0 {
        let header = received.payload@[0];
        assert(header / 32 == header >> 5) by (bit_vector);
    }
}

/// The control channel is read in parts: the last part of a packet does what the packet does, and
/// the other parts nothing.
pub proof fn parts_are_followed(
    client: &mut ClientState,
    part: Vec<u8>,
    r: Result<Option<Heard>, ClientError>,
)
    requires
        part@.len() == old(client).awaiting.wants(),
        call_ensures(ClientState::try_mumble_loop, (client, part), r),
    ensures
        match old(client).awaiting {
            Awaiting::Kind => {
                &&& final(client).awaiting == (Awaiting::Length {
                    kind: (0x100 * part@[0] + part@[1]) as u16,
                })
                &&& r == Ok::<Option<Heard>, ClientError>(None)
                &&& final(client).local == old(client).local
                &&& final(client).remotes == old(client).remotes
            },
            Awaiting::Length { kind } => {
                &&& final(client).awaiting == (Awaiting::Payload {
                    kind,
                    length: (0x100_0000 * part@[0] + 0x1_0000 * part@[1] + 0x100 * part@[2]
                        + part@[3]) as u32,
                })
                &&& r == Ok::<Option<Heard>, ClientError>(None)
                &&& final(client).local == old(client).local
                &&& final(client).remotes == old(client).remotes
            },
            Awaiting::Payload { kind, .. } => {
                &&& final(client).awaiting == Awaiting::Kind
                &&& kind == 5 && mumble::session_of(part@) is Ok ==> final(client).local.session
                    == mumble::session_of(part@)->Ok_0
                &&& kind != 5 ==> final(client).local.session == old(client).local.session
                &&& kind != 1 ==> final(client).remotes == old(client).remotes && (r is Ok ==> r->Ok_0
                    is None)
                &&& kind == 1 && part@.len() > 0 && part@[0] >> 5 == 4 ==> match udp::voice_of(
                    part@,
                ) {
                    Some(voice) => if util::segments_complete(voice.frame) {
                        &&& r is Ok
                        &&& r->Ok_0 is Some
                        &&& r->Ok_0->Some_0.remote == voice.session
                        &&& r->Ok_0->Some_0.segments.data@ == util::segments_of(voice.frame).data
                        &&& r->Ok_0->Some_0.segments.segments == util::segments_of(
                            voice.frame,
                        ).count
                        &&& r->Ok_0->Some_0.segments.done == util::segments_of(voice.frame).done
                    } else {
                        r is Err
                    },
                    None => r is Err,
                }
            },
        },
{
    network::bytes_spell(part@);
    if part@.len() > 0 {
        let header = part@[0];
        assert(header / 32 == header >> 5) by (bit_vector);
    }
}

/// The segments of a frame are handed on as they are, unless one is cut short.
pub proof fn segments_are_handed_on(frame: Vec<u8>, r: Option<OpusFrame>)
    requires
        call_ensures(try_mumble_decode, (frame,), r),
    ensures
        r is Some <==> util::segments_complete(frame@),
        r matches Some(f) ==> (util::Segments {
            data: f.data@,
            count: f.segments as nat,
            done: f.done,
        }) == util::segments_of(frame@),
{
}

/// A user is made known once, under its own session, and nobody else is touched.
pub proof fn users_are_managed(
    id: u64,
    sessions: &mut HashMap<u64, RemoteSession>,
    r: (),
    other: u64,
)
    requires
        call_ensures(manage_remote_sessions, (id, sessions), r),
    ensures
        final(sessions)@.contains_key(id),
        !old(sessions)@.contains_key(id) ==> final(sessions)@[id].session == id && final(
            sessions)@[id].sequence == 0,
        other != id ==> (final(sessions)@.contains_key(other) <==> old(sessions)@.contains_key(
            other,
        )),
        old(sessions)@.contains_key(other) ==> final(sessions)@[other] == old(sessions)@[other],
{
}

/// What is heard is put behind what is held. At the end all of it comes out and nothing is held;
/// before the end nothing comes out.
pub proof fn speech_is_collected(
    buffer: &mut VoiceBuffer,
    msg: &[u8],
    done: bool,
    r: Option<Vec<u8>>,
)
    requires
        call_ensures(VoiceBuffer::voice_buffer, (buffer, msg, done), r),
    ensures
        ({
            let held = match old(buffer).writer {
                Some(writer) => writer@,
                None => Seq::<u8>::empty(),
            };
            &&& done ==> r is Some && r->Some_0@ == held + msg@ && final(buffer).writer is None
            &&& !done ==> r is None && final(buffer).writer is Some && final(buffer).writer->Some_0@
                == held + msg@
        }),
{
}

/// A file's name holds the session in decimal and the date.
pub proof fn files_are_named(session: u32, date: &str, r: String, digits: String)
    requires
        call_ensures(file_name_at, (session, date), r),
        call_ensures(text::decimal, (session as u64,), digits),
    ensures
        r@ == "incoming-"@ + digits@ + "-"@ + date@ + ".raw"@,
{
}

/// A file of sound is cut into chunks of 480 samples, two bytes a sample, of which only the last
/// may be shorter.
pub proof fn files_are_cut(pcm_data: &[u8], r: Vec<Vec<i16>>, i: int, j: int)
    requires
        call_ensures(say_something, (pcm_data,), r),
    ensures
        ({
            let samples = pcm_data@.len() as int / 2;
            let s = pcm_data@;
            &&& samples <= 480 * r@.len() < samples + 480
            &&& 0 <= i < r@.len() - 1 ==> r@[i]@.len() == 480
            &&& 0 <= i == r@.len() - 1 ==> r@[i]@.len() == samples - 480 * i
            &&& 0 <= i < r@.len() && 0 <= j < r@[i]@.len() ==> {
                let k = 2 * (480 * i + j);
                &&& s[k + 1] < 0x80 ==> r@[i]@[j] == s[k] + 0x100 * s[k + 1]
                &&& s[k + 1] >= 0x80 ==> r@[i]@[j] == s[k] + 0x100 * s[k + 1] - 0x1_0000
            }
        }),
{
    let x = pcm::samples_of(pcm_data@);
    pcm::lemma_piece_count(x, 480);
    pcm::views_are_contents(r@, i);
    if 0 <= i < r@.len() {
        pcm::lemma_piece_at(x, 480, i);
        if 0 <= j < r@[i]@.len() {
            assert(r@[i]@[j] == x[480 * i + j]);
        }
    }
}

/// Compressed chunks go out as voice packets of kind 1, one for one, numbered one after the other.
pub proof fn frames_are_said(start: u64, frames: &Vec<Vec<u8>>, r: Option<Vec<Vec<u8>>>, i: int)
    requires
        call_ensures(say_frames_at, (start, frames), r),
    ensures
        r is None <==> start + frames@.len() > u64::MAX,
        r is Some ==> r->Some_0@.len() == frames@.len(),
        r is Some && 0 <= i < frames@.len() ==> {
            let s = r->Some_0@[i]@;
            let payload = seq![0x80u8] + varint::encode((start + 1 + i) as u64) + varint::encode(
                frames@[i]@.len() as u64,
            ) + frames@[i]@;
            &&& s.len() == 6 + payload.len()
            &&& s[0] == 0
            &&& s[1] == 1
            &&& payload.len() <= u32::MAX ==> 0x100_0000 * s[2] + 0x1_0000 * s[3] + 0x100 * s[4]
                + s[5] == payload.len()
            &&& s.skip(6) == payload
        },
{
    if r is Some && 0 <= i < frames@.len() {
        let s = r->Some_0@[i]@;
        let payload = seq![0x80u8] + varint::encode((start + 1 + i) as u64) + varint::encode(
            frames@[i]@.len() as u64,
        ) + frames@[i]@;
        assert(s == say_bytes((start + 1 + i) as u64, frames@[i]@));
        mumble::lemma_framed(1, payload);
    }
}

/// A plain sign of life is a packet of kind 3 without a payload.
pub proof fn plain_pings_are_packed(r: Vec<u8>)
    requires
        call_ensures(mumble_ping, (), r),
    ensures
        r@ == seq![0u8, 3u8, 0u8, 0u8, 0u8, 0u8],
{
    network::spelled_out(3);
    network::spelled_out(0);
    assert(r@ =~= seq![0u8, 3u8, 0u8, 0u8, 0u8, 0u8]);
}

/// Where the packet can be handled, the part that completes it does the same.
pub proof fn handled_parts_are_followed(client: &mut ClientState, part: Vec<u8>, r: Option<Heard>)
    requires
        call_ensures(ClientState::mumble_loop, (client, part), r),
        old(client).awaiting matches Awaiting::Payload { kind, .. } ==> effect_of(
            kind,
            part@,
        ) is Ok,
    ensures
        match old(client).awaiting {
            Awaiting::Payload { kind, .. } => {
                &&& final(client).awaiting == Awaiting::Kind
                &&& kind == 5 ==> final(client).local.session == mumble::session_of(part@)->Ok_0
                &&& kind != 5 ==> final(client).local.session == old(client).local.session
                &&& kind != 1 ==> final(client).remotes == old(client).remotes && r is None
                &&& kind == 1 && part@[0] >> 5 == 4 ==> {
                    let voice = udp::voice_of(part@)->Some_0;
                    let segments = util::segments_of(voice.frame);
                    &&& r is Some
                    &&& r->Some_0.remote == voice.session
                    &&& r->Some_0.segments.data@ == segments.data
                    &&& r->Some_0.segments.segments == segments.count
                    &&& r->Some_0.segments.done == segments.done
                    &&& final(client).remotes@.contains_key(voice.session)
                }
                &&& kind == 1 && part@[0] >> 5 != 4 ==> r is None
            },
            _ => r is None && final(client).local == old(client).local && final(client).remotes
                == old(client).remotes && !(final(client).awaiting is Kind),
        },
{
    if part@.len() > 0 {
        let header = part@[0];
        assert(header / 32 == header >> 5) by (bit_vector);
    }
}

/// A user's decoder is kept as it was put, until it is taken, and everybody else's stays.
pub proof fn decoders_are_kept<D>(
    put: &mut Decoders<D>,
    remote: u64,
    decoder: D,
    done: (),
    taken: &mut Decoders<D>,
    r: Option<D>,
    other: u64,
)
    requires
        call_ensures(Decoders::<D>::put, (put, remote, decoder), done),
        *old(taken) == *final(put),
        call_ensures(Decoders::<D>::take, (taken, remote), r),
    ensures
        r == Some(decoder),
        !final(taken).inner@.contains_key(remote),
        other != remote ==> (final(taken).inner@.contains_key(other) <==> old(
            put).inner@.contains_key(other)),
        other != remote && old(put).inner@.contains_key(other) ==> final(taken).inner@[other]
            == old(put).inner@[other],
{
}

} // verus!
