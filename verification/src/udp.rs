//! Voice packets as datagrams.
//!
//! The first byte of a packet holds its type in three bits and its target in five. A voice packet
//! from a client goes on with a sequence number and one segment of compressed sound. The server
//! puts the sender's session in front of the sequence number.

use crate::clock;
use crate::cursor::{ByteSink, ByteSource, Cursor, ReadError};
use crate::util;
use crate::varint;
use crate::varint::{VarintReader, VarintWriter};
use vstd::prelude::*;

verus! {

/// The type of a sign of life.
pub const PING: u32 = 1;

/// The type of sound that Opus compressed.
pub const OPUS: u32 = 4;

/// How many bytes the encoder may make of the samples of one packet.
pub const MAX_FRAME: usize = 4000;

/// How many bytes longer a packet is when it is encrypted.
pub const CRYPT_OVERHEAD: usize = 4;

/// A packet to send.
pub struct AudioOutPacket {
    pub type_: u32,
    pub target: u32,
    pub pcm: Vec<i16>,
    pub done: bool,
    pub timestamp: u64,
}

/// A packet that was received.
pub struct AudioInPacket {
    pub type_: u32,
    pub target: u32,
    pub pcm: Vec<u8>,
}

/// The sequence numbers of the two directions.
pub struct AudioPacketCodec {
    pub encoder_sequence: u64,
    pub decoder_sequence: u64,
}

/// A packet whose sound is still compressed.
pub struct Incoming {
    pub type_: u32,
    pub target: u32,
    /// The segments of a voice packet.
    pub frame: Option<Vec<u8>>,
}

/// What a voice packet holds.
pub ghost struct Voice {
    pub session: u64,
    pub sequence: u64,
    pub frame: Seq<u8>,
}

/// The type in a packet's first byte.
pub open spec fn header_type(header: u8) -> u8 {
    header / 32
}

/// The target in a packet's first byte.
pub open spec fn header_target(header: u8) -> u8 {
    header % 32
}

/// What the voice packet `data` holds after its first byte, unless it ends too early.
pub open spec fn voice_of(data: Seq<u8>) -> Option<Voice> {
    let body = data.skip(1);
    match varint::decode(body) {
        Some((session, n)) => match varint::decode(body.skip(n as int)) {
            Some((sequence, m)) => Some(
                Voice { session, sequence, frame: body.skip(n as int).skip(m as int) },
            ),
            None => None,
        },
        None => None,
    }
}

/// Whether the packet `data` has a first byte and, where it is a voice packet, does not end before
/// its sound.
pub open spec fn is_complete(data: Seq<u8>) -> bool {
    data.len() > 0 && (header_type(data[0]) == OPUS ==> voice_of(data) is Some)
}

/// Whether the codec goes from `before` to `after` on the packet `data`, which is read as `r`.
pub open spec fn decoded(
    before: AudioPacketCodec,
    data: Seq<u8>,
    after: AudioPacketCodec,
    r: Incoming,
) -> bool {
    &&& after.encoder_sequence == before.encoder_sequence
    &&& r.type_ == header_type(data[0])
    &&& r.target == header_target(data[0])
    &&& if header_type(data[0]) == OPUS {
        &&& r.frame is Some
        &&& r.frame->Some_0@ == voice_of(data)->Some_0.frame
        &&& after.decoder_sequence == voice_of(data)->Some_0.sequence
    } else {
        &&& r.frame is None
        &&& after.decoder_sequence == before.decoder_sequence
    }
}

/// A sign of life.
pub open spec fn ping_datagram(timestamp: u64) -> Seq<u8> {
    seq![0x20u8] + varint::encode(timestamp)
}

/// A packet of compressed sound.
pub open spec fn voice_datagram(sequence: u64, frame: Seq<u8>) -> Seq<u8> {
    seq![0x80u8] + varint::encode(sequence) + varint::encode(frame.len() as u64) + frame
}

/// A packet of compressed sound as the server passes it on.
pub open spec fn relayed_datagram(session: u64, sequence: u64, frame: Seq<u8>) -> Seq<u8> {
    seq![0x80u8] + varint::encode(session) + varint::encode(sequence) + varint::encode(
        frame.len() as u64,
    ) + frame
}

/// What `voice_of` says, in executable form.
pub(crate) struct VoiceFrame {
    pub session: u64,
    pub sequence: u64,
    pub frame: Vec<u8>,
}

/// Reads what follows the first byte of a voice packet.
pub(crate) fn read_voice(rdr: &mut Cursor) -> (r: Result<VoiceFrame, ReadError>)
    ensures
        forall|header: u8| #[trigger]
            voice_of(seq![header] + old(rdr).unread()) == match r {
                Ok(v) => Some(
                    Voice { session: v.session, sequence: v.sequence, frame: v.frame@ },
                ),
                Err(_) => None,
            },
        r matches Err(e) ==> e == ReadError::UnexpectedEof,
{
    let ghost body = rdr.unread();
    assert forall|header: u8| (#[trigger] (seq![header] + body)).skip(1) == body by {
        assert((seq![header] + body).skip(1) =~= body);
    }
    let session = match rdr.read_varint() {
        Ok(session) => session,
        Err(e) => {
            return Err(e);
        },
    };
    let sequence = match rdr.read_varint() {
        Ok(sequence) => sequence,
        Err(e) => {
            return Err(e);
        },
    };
    let frame = rdr.read_to_end();
    Ok(VoiceFrame { session, sequence, frame })
}

/// A packet of compressed sound.
pub fn voice_packet(sequence: u64, frame: &[u8]) -> (r: Vec<u8>)
    ensures
        r@ == voice_datagram(sequence, frame@),
{
    let mut data: Vec<u8> = Vec::new();
    data.push(0x80);
    let _ = data.write_varint(sequence);
    let _ = data.write_varint(frame.len() as u64);
    data.extend_from_slice(frame);
    proof {
        let a = varint::encode(sequence);
        let b = varint::encode(frame@.len() as u64);
        assert(a.take(a.len() as int) =~= a);
        assert(b.take(b.len() as int) =~= b);
        assert(data@ =~= voice_datagram(sequence, frame@));
    }
    data
}

impl AudioPacketCodec {
    /// The number of bytes of a packet that arrives encrypted in `sealed` bytes. A packet has at
    /// least one.
    pub fn opened_len(sealed: usize) -> (r: usize)
        requires
            sealed > CRYPT_OVERHEAD,
        ensures
            r == sealed - CRYPT_OVERHEAD,
            r > 0,
    {
        sealed - CRYPT_OVERHEAD
    }

    /// The number of bytes that a packet of `opened` bytes takes encrypted.
    pub fn sealed_len(opened: usize) -> (r: usize)
        requires
            opened + CRYPT_OVERHEAD <= usize::MAX,
        ensures
            r == opened + CRYPT_OVERHEAD,
    {
        opened + CRYPT_OVERHEAD
    }

    /// Reads a decrypted packet that is complete. The sequence number of a voice packet is kept.
    pub fn decode(&mut self, data: Vec<u8>) -> (r: Incoming)
        requires
            is_complete(data@),
        ensures
            decoded(*old(self), data@, *final(self), r),
    {
        match self.try_decode(data) {
            Ok(incoming) => incoming,
            Err(_) => Incoming { type_: 0, target: 0, frame: None },
        }
    }

    /// Reads a decrypted packet, as `decode` does, unless it ends too early: then nothing changes.
    pub fn try_decode(&mut self, data: Vec<u8>) -> (r: Result<Incoming, ReadError>)
        ensures
            is_complete(data@) ==> r is Ok && decoded(*old(self), data@, *final(self), r->Ok_0),
            !is_complete(data@) ==> r == Err::<Incoming, ReadError>(ReadError::UnexpectedEof)
                && *final(self) == *old(self),
    {
        let ghost all = data@;
        let mut rdr = Cursor::new(data);
        let header = match rdr.read_byte() {
            Ok(header) => header,
            Err(e) => {
                return Err(e);
            },
        };
        let type_ = (header / 32) as u32;
        let target = (header % 32) as u32;
        let frame = if type_ == OPUS {
            assert(all =~= seq![header] + rdr.unread());
            match read_voice(&mut rdr) {
                Ok(voice) => {
                    self.decoder_sequence = voice.sequence;
                    Some(voice.frame)
                },
                Err(e) => {
                    return Err(e);
                },
            }
        } else {
            None
        };
        Ok(Incoming { type_, target, frame })
    }

    /// The samples that have to be compressed before `packet` can be sent.
    pub fn to_compress<'a>(packet: &'a AudioOutPacket) -> (r: Option<&'a Vec<i16>>)
        ensures
            r == if packet.type_ == OPUS {
                Some(&packet.pcm)
            } else {
                None
            },
    {
        if packet.type_ == OPUS {
            Some(&packet.pcm)
        } else {
            None
        }
    }

    /// Writes a packet that is then to be encrypted. `frame` is what the encoder made of the
    /// packet's samples, in at most `MAX_FRAME` bytes; a sign of life has none. Each voice packet
    /// gets the next sequence number.
    pub fn encode(&mut self, packet: &AudioOutPacket, frame: &[u8]) -> (r: Vec<u8>)
        requires
            packet.type_ == PING || packet.type_ == OPUS,
            packet.type_ == OPUS ==> old(self).encoder_sequence < u64::MAX,
        ensures
            final(self).decoder_sequence == old(self).decoder_sequence,
            packet.type_ == PING ==> r@ == ping_datagram(packet.timestamp)
                && final(self).encoder_sequence == old(self).encoder_sequence,
            packet.type_ == OPUS ==> final(self).encoder_sequence == old(self).encoder_sequence + 1
                && r@ == voice_datagram(final(self).encoder_sequence, frame@),
    {
        if packet.type_ == PING {
            let mut data: Vec<u8> = Vec::new();
            data.push(0x20);
            let _ = data.write_varint(packet.timestamp);
            proof {
                let a = varint::encode(packet.timestamp);
                assert(a.take(a.len() as int) =~= a);
                assert(data@ =~= ping_datagram(packet.timestamp));
            }
            data
        } else {
            self.encoder_sequence = self.encoder_sequence + 1;
            voice_packet(self.encoder_sequence, frame)
        }
    }
}

impl Incoming {
    /// The packet with its sound. `pcm` is what became of the segments of a voice packet; other
    /// packets have no sound.
    pub fn into_packet(self, pcm: Vec<u8>) -> (r: AudioInPacket)
        ensures
            r.type_ == self.type_,
            r.target == self.target,
            r.pcm@ == if self.frame is Some {
                pcm@
            } else {
                Seq::<u8>::empty()
            },
    {
        let pcm = match self.frame {
            Some(_) => pcm,
            None => Vec::new(),
        };
        AudioInPacket { type_: self.type_, target: self.target, pcm }
    }
}

/// The sound to play: that of a voice packet. Other packets have none.
pub fn udp_recv_loop(packet: AudioInPacket) -> (r: Option<Vec<u8>>)
    ensures
        r == if packet.type_ == OPUS {
            Some(packet.pcm)
        } else {
            None
        },
{
    if packet.type_ == OPUS {
        Some(packet.pcm)
    } else {
        None
    }
}

/// Whether `p` is the sign of life of the time `timestamp`.
pub open spec fn is_ping(p: AudioOutPacket, timestamp: u64) -> bool {
    &&& p.type_ == PING
    &&& p.target == 0
    &&& p.pcm@ == Seq::<i16>::empty()
    &&& !p.done
    &&& p.timestamp == timestamp
}

/// The sign of life of the time `timestamp`.
pub fn udp_ping_at(timestamp: u64) -> (r: AudioOutPacket)
    ensures
        is_ping(r, timestamp),
{
    AudioOutPacket { type_: PING, target: 0, pcm: Vec::new(), done: false, timestamp }
}

/// The sign of life of this moment.
pub fn udp_ping() -> (r: AudioOutPacket)
    ensures
        is_ping(r, r.timestamp),
        r.timestamp <= 0x7FFF_FFFF_FFFF_FFFF,
{
    udp_ping_at(clock::unix_timestamp())
}

/// Sound that one client sends, and the server passes on, reaches another client as it was, with
/// its sequence number and the sender's session.
pub proof fn sound_arrives(session: u64, sequence: u64, frame: Seq<u8>)
    requires
        frame.len() < 0x2000,
    ensures
        ({
            let sent = voice_datagram(sequence, frame);
            let relayed = relayed_datagram(session, sequence, frame);
            &&& relayed == sent.take(1) + varint::encode(session) + sent.skip(1)
            &&& header_type(relayed[0]) == OPUS
            &&& header_target(relayed[0]) == 0
            &&& voice_of(relayed) is Some
            &&& voice_of(relayed)->Some_0.session == session
            &&& voice_of(relayed)->Some_0.sequence == sequence
            &&& util::segments_complete(voice_of(relayed)->Some_0.frame)
            &&& util::segments_of(voice_of(relayed)->Some_0.frame) == (util::Segments {
                data: frame,
                count: 1,
                done: false,
            })
        }),
{
    let sent = voice_datagram(sequence, frame);
    let relayed = relayed_datagram(session, sequence, frame);
    let a = varint::encode(session);
    let b = varint::encode(sequence);
    let segment = varint::encode(frame.len() as u64) + frame;
    let body = relayed.skip(1);
    assert(sent.take(1) =~= seq![0x80u8]);
    assert(relayed =~= sent.take(1) + a + sent.skip(1));
    assert(body =~= a + (b + segment));
    varint::round_trip(session, b + segment);
    assert(body.skip(a.len() as int) =~= b + segment);
    varint::round_trip(sequence, segment);
    assert((b + segment).skip(b.len() as int) =~= segment);
    util::one_segment(frame);
}

/// A sign of life holds its time.
pub proof fn ping_arrives(timestamp: u64)
    ensures
        ({
            let sent = ping_datagram(timestamp);
            &&& header_type(sent[0]) == PING
            &&& header_target(sent[0]) == 0
            &&& varint::decode(sent.skip(1)) == Some((timestamp, varint::encode(timestamp).len()))
        }),
{
    let sent = ping_datagram(timestamp);
    varint::round_trip(timestamp, Seq::empty());
    assert(sent.skip(1) =~= varint::encode(timestamp) + Seq::<u8>::empty());
}

/// The first byte of a packet: its top three bits are the type and the others the target.
proof fn lemma_header(header: u8)
    ensures
        header_type(header) == header >> 5,
        header_target(header) == header & 0x1F,
        header >> 5 == 4 <==> header_type(header) == OPUS,
{
    assert(header / 32 == header >> 5) by (bit_vector);
    assert(header % 32 == header & 0x1F) by (bit_vector);
}

/// After the first byte of a voice packet come the session and the sequence number, in whatever
/// spelling, and all that follows is the sound.
pub proof fn voices_are_read(
    header: u8,
    session: u64,
    session_bytes: Seq<u8>,
    sequence: u64,
    sequence_bytes: Seq<u8>,
    frame: Seq<u8>,
)
    requires
        varint::decode(session_bytes) == Some((session, session_bytes.len())),
        varint::decode(sequence_bytes) == Some((sequence, sequence_bytes.len())),
    ensures
        voice_of(seq![header] + session_bytes + sequence_bytes + frame) == Some(
            Voice { session, sequence, frame },
        ),
        is_complete(seq![header] + session_bytes + sequence_bytes + frame),
{
    let data = seq![header] + session_bytes + sequence_bytes + frame;
    let body = session_bytes + (sequence_bytes + frame);
    assert(data.skip(1) =~= body);
    varint::decode_is_local(session_bytes, sequence_bytes + frame);
    varint::decode_is_local(sequence_bytes, frame);
    assert(session_bytes.take(session_bytes.len() as int) =~= session_bytes);
    assert(sequence_bytes.take(sequence_bytes.len() as int) =~= sequence_bytes);
    assert(body.skip(session_bytes.len() as int) =~= sequence_bytes + frame);
    assert((sequence_bytes + frame).skip(sequence_bytes.len() as int) =~= frame);
}

/// A voice packet that does not spell two numbers after its first byte has no sound.
pub proof fn short_voices_are_not_read(header: u8, body: Seq<u8>)
    ensures
        voice_of(seq![header] + body) is None <==> varint::decode(body) is None || varint::decode(
            body.skip(varint::decode(body)->Some_0.1 as int),
        ) is None,
        is_complete(seq![header] + body) <==> header >> 5 != 4 || voice_of(
            seq![header] + body,
        ) is Some,
        !is_complete(Seq::<u8>::empty()),
{
    lemma_header(header);
    assert((seq![header] + body).skip(1) =~= body);
}

/// Whatever packets came before, a voice packet comes out with its type and target, with all the
/// bytes after its two numbers as its sound, and leaves its sequence number behind.
pub proof fn every_voice_comes_out(
    codec: &mut AudioPacketCodec,
    data: Vec<u8>,
    r: Result<Incoming, ReadError>,
    header: u8,
    session: u64,
    session_bytes: Seq<u8>,
    sequence: u64,
    sequence_bytes: Seq<u8>,
    frame: Seq<u8>,
)
    requires
        call_ensures(AudioPacketCodec::try_decode, (codec, data), r),
        varint::decode(session_bytes) == Some((session, session_bytes.len())),
        varint::decode(sequence_bytes) == Some((sequence, sequence_bytes.len())),
        data@ == seq![header] + session_bytes + sequence_bytes + frame,
        header >> 5 == 4,
    ensures
        r is Ok,
        r->Ok_0.type_ == 4,
        r->Ok_0.target == header & 0x1F,
        r->Ok_0.frame is Some,
        r->Ok_0.frame->Some_0@ == frame,
        final(codec).decoder_sequence == sequence,
        final(codec).encoder_sequence == old(codec).encoder_sequence,
{
    lemma_header(header);
    voices_are_read(header, session, session_bytes, sequence, sequence_bytes, frame);
}

/// A packet of another type comes out with its type and target and without sound, and changes
/// nothing; one that is cut short does not come out.
pub proof fn other_packets_come_out(
    codec: &mut AudioPacketCodec,
    data: Vec<u8>,
    r: Result<Incoming, ReadError>,
)
    requires
        call_ensures(AudioPacketCodec::try_decode, (codec, data), r),
        data@.len() > 0 ==> data@[0] >> 5 != 4 || voice_of(data@) is None,
    ensures
        *final(codec) == *old(codec),
        r is Ok <==> data@.len() > 0 && data@[0] >> 5 != 4,
        r is Ok ==> r->Ok_0.type_ == data@[0] >> 5 && r->Ok_0.target == data@[0] & 0x1F
            && r->Ok_0.frame is None,
        r is Err ==> r->Err_0 == ReadError::UnexpectedEof,
{
    if data@.len() > 0 {
        lemma_header(data@[0]);
    }
}

/// A complete packet is read in the same way where it is known to be complete.
pub proof fn complete_packets_are_decoded(
    codec: &mut AudioPacketCodec,
    data: Vec<u8>,
    r: Incoming,
    header: u8,
    session: u64,
    session_bytes: Seq<u8>,
    sequence: u64,
    sequence_bytes: Seq<u8>,
    frame: Seq<u8>,
)
    requires
        call_ensures(AudioPacketCodec::decode, (codec, data), r),
        varint::decode(session_bytes) == Some((session, session_bytes.len())),
        varint::decode(sequence_bytes) == Some((sequence, sequence_bytes.len())),
        data@ == seq![header] + session_bytes + sequence_bytes + frame,
    ensures
        r.type_ == header >> 5,
        r.target == header & 0x1F,
        final(codec).encoder_sequence == old(codec).encoder_sequence,
        header >> 5 == 4 ==> r.frame is Some && r.frame->Some_0@ == frame && final(codec).decoder_sequence == sequence,
        header >> 5 != 4 ==> r.frame is None && final(codec).decoder_sequence == old(codec).decoder_sequence,
{
    lemma_header(header);
    voices_are_read(header, session, session_bytes, sequence, sequence_bytes, frame);
}

/// The sound of one client comes out of another client's codec as one segment, whatever that
/// codec read before.
pub proof fn sound_comes_out_in_every_state(
    codec: &mut AudioPacketCodec,
    data: Vec<u8>,
    r: Result<Incoming, ReadError>,
    session: u64,
    sequence: u64,
    sound: Seq<u8>,
)
    requires
        sound.len() < 0x2000,
        call_ensures(AudioPacketCodec::try_decode, (codec, data), r),
        data@ == seq![0x80u8] + varint::encode(session) + varint::encode(sequence) + varint::encode(
            sound.len() as u64,
        ) + sound,
    ensures
        r is Ok,
        r->Ok_0.type_ == 4,
        r->Ok_0.target == 0,
        r->Ok_0.frame is Some,
        util::segments_of(r->Ok_0.frame->Some_0@).data == sound,
        util::segments_of(r->Ok_0.frame->Some_0@).count == 1,
        !util::segments_of(r->Ok_0.frame->Some_0@).done,
        final(codec).decoder_sequence == sequence,
{
    let a = varint::encode(session);
    let b = varint::encode(sequence);
    let frame = varint::encode(sound.len() as u64) + sound;
    let none = Seq::<u8>::empty();
    varint::round_trip(session, none);
    varint::round_trip(sequence, none);
    assert(a + none =~= a);
    assert(b + none =~= b);
    assert(data@ =~= seq![0x80u8] + a + b + frame);
    assert(0x80u8 >> 5 == 4 && 0x80u8 & 0x1F == 0) by (bit_vector);
    every_voice_comes_out(codec, data, r, 0x80, session, a, sequence, b, frame);
    util::one_segment(sound);
}

/// What is sent: a sign of life is a byte that tells so and its time; sound is a byte that tells
/// so, the next sequence number, the length of the sound and the sound.
pub proof fn packets_are_spelled(
    codec: &mut AudioPacketCodec,
    packet: &AudioOutPacket,
    frame: &[u8],
    r: Vec<u8>,
)
    requires
        call_ensures(AudioPacketCodec::encode, (codec, packet, frame), r),
    ensures
        final(codec).decoder_sequence == old(codec).decoder_sequence,
        packet.type_ == 1 ==> {
            &&& r@ == seq![0x20u8] + varint::encode(packet.timestamp)
            &&& final(codec).encoder_sequence == old(codec).encoder_sequence
        },
        packet.type_ == 4 ==> {
            &&& final(codec).encoder_sequence == old(codec).encoder_sequence + 1
            &&& r@ == seq![0x80u8] + varint::encode(
                (old(codec).encoder_sequence + 1) as u64,
            ) + varint::encode(frame@.len() as u64) + frame@
        },
{
}

/// A packet of sound is a byte that tells so, its sequence number, the length of the sound and the
/// sound.
pub proof fn voices_are_spelled(sequence: u64, frame: &[u8], r: Vec<u8>)
    requires
        call_ensures(voice_packet, (sequence, frame), r),
    ensures
        r@ == seq![0x80u8] + varint::encode(sequence) + varint::encode(frame@.len() as u64)
            + frame@,
{
}

/// Sound is handed on from voice packets, unaltered, and from no others, and only the samples of
/// voice packets are compressed.
pub proof fn only_voices_sound(
    incoming: Incoming,
    pcm: Vec<u8>,
    packet: AudioInPacket,
    sound: Option<Vec<u8>>,
    out: &AudioOutPacket,
    samples: Option<&Vec<i16>>,
)
    requires
        call_ensures(Incoming::into_packet, (incoming, pcm), packet),
        call_ensures(udp_recv_loop, (packet,), sound),
        call_ensures(AudioPacketCodec::to_compress, (out,), samples),
    ensures
        packet.type_ == incoming.type_,
        packet.target == incoming.target,
        incoming.frame is Some ==> packet.pcm@ == pcm@,
        incoming.frame is None ==> packet.pcm@.len() == 0,
        sound is Some <==> packet.type_ == 4,
        sound is Some ==> sound->Some_0@ == packet.pcm@,
        samples is Some <==> out.type_ == 4,
        samples is Some ==> samples->Some_0@ == out.pcm@,
{
}

/// A sign of life carries its time and nothing else.
pub proof fn pings_carry_their_time(timestamp: u64, r: AudioOutPacket)
    requires
        call_ensures(udp_ping_at, (timestamp,), r),
    ensures
        r.type_ == 1,
        r.target == 0,
        r.pcm@.len() == 0,
        !r.done,
        r.timestamp == timestamp,
{
}

/// Encryption makes a packet four bytes longer.
pub proof fn four_bytes_of_encryption(opened: usize, sealed: usize, back: usize)
    requires
        call_ensures(AudioPacketCodec::sealed_len, (opened,), sealed),
        call_ensures(AudioPacketCodec::opened_len, (sealed,), back),
    ensures
        sealed == opened + 4,
        back == opened,
{
}

} // verus!
