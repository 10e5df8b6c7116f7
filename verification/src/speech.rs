//! Sound on its way out.
//!
//! Sound comes in as bytes, in segments of any length. It goes out in packets of ten milliseconds
//! of one channel at 16 kHz.

use crate::pcm;
use crate::udp;
use crate::udp::AudioOutPacket;
use vstd::prelude::*;

verus! {

/// The samples of a packet: 16000 a second for ten milliseconds.
pub const PACKET_SAMPLES: usize = 160;

/// The bytes of the samples of a packet.
pub const PACKET_BYTES: usize = 320;

/// The samples of the packets that `s` fills.
pub open spec fn filled(s: Seq<u8>) -> Seq<Seq<i16>>
    decreases s.len(),
{
    if s.len() < PACKET_BYTES {
        Seq::empty()
    } else {
        seq![pcm::samples_of(s.take(PACKET_BYTES as int))] + filled(s.skip(PACKET_BYTES as int))
    }
}

/// The end of `s`, which fills no packet.
pub open spec fn left_over(s: Seq<u8>) -> Seq<u8> {
    s.skip(s.len() as int / 320 * 320)
}

/// `x` and as many zeros as fill a packet.
pub open spec fn padded(x: Seq<i16>) -> Seq<i16> {
    x + Seq::new((PACKET_SAMPLES - x.len()) as nat, |i: int| 0i16)
}

/// The samples of the last packet, where the end of `s` needs one.
pub open spec fn last_packet(s: Seq<u8>) -> Option<Seq<i16>> {
    if left_over(s).len() == 0 {
        None
    } else {
        Some(padded(pcm::samples_of(left_over(s))))
    }
}

/// The samples of all packets in which `s` goes out.
pub open spec fn said(s: Seq<u8>) -> Seq<Seq<i16>> {
    match last_packet(s) {
        Some(last) => filled(s).push(last),
        None => filled(s),
    }
}

/// Whether `p` is a voice packet of the samples `samples`.
pub open spec fn is_speech(p: AudioOutPacket, samples: Seq<i16>) -> bool {
    &&& p.type_ == udp::OPUS
    &&& p.target == 0
    &&& p.pcm@ == samples
    &&& !p.done
    &&& p.timestamp == 0
}

/// Whether `packets` are voice packets of the samples `samples`, in order.
pub open spec fn are_speech(packets: Seq<AudioOutPacket>, samples: Seq<Seq<i16>>) -> bool {
    &&& packets.len() == samples.len()
    &&& forall|i: int|
        0 <= i < packets.len() ==> is_speech(#[trigger] packets[i], samples[i])
}

/// A voice packet of `samples`.
fn speech_packet(samples: Vec<i16>) -> (r: AudioOutPacket)
    ensures
        is_speech(r, samples@),
{
    AudioOutPacket { type_: udp::OPUS, target: 0, pcm: samples, done: false, timestamp: 0 }
}

/// What is left to say.
pub struct Speaker {
    pending: Vec<u8>,
}

impl Speaker {
    #[verifier::type_invariant]
    spec fn short(self) -> bool {
        self.pending@.len() < PACKET_BYTES
    }

    /// The bytes that have filled no packet yet.
    pub closed spec fn pending(&self) -> Seq<u8> {
        self.pending@
    }

    /// Nothing has been said.
    pub fn new() -> (r: Speaker)
        ensures
            r.pending() == Seq::<u8>::empty(),
    {
        Speaker { pending: Vec::new() }
    }

    /// How many bytes have filled no packet yet.
    pub fn pending_len(&self) -> (r: usize)
        ensures
            r == self.pending().len(),
            r < PACKET_BYTES,
    {
        proof {
            use_type_invariant(self);
        }
        self.pending.len()
    }

    /// Takes the next segment and gives the packets that it fills.
    pub fn push(&mut self, segment: &[u8]) -> (r: Vec<AudioOutPacket>)
        ensures
            are_speech(r@, filled(old(self).pending() + segment@)),
            final(self).pending() == left_over(old(self).pending() + segment@),
    {
        proof {
            use_type_invariant(&*self);
        }
        let ghost all = self.pending@ + segment@;
        let mut out: Vec<AudioOutPacket> = Vec::new();
        let mut pending: Vec<u8> = Vec::new();
        pending.extend_from_slice(self.pending.as_slice());
        let mut i: usize = 0;
        assert(pending@ + segment@.skip(0) =~= all);
        let ghost mut front: Seq<Seq<i16>> = Seq::empty();
        proof {
            assert(front + filled(all) =~= filled(all));
            lemma_left_over_short(pending@);
        }
        while i < segment.len()
            invariant
                i <= segment@.len(),
                pending@.len() < PACKET_BYTES,
                are_speech(out@, front),
                filled(all) == front + filled(pending@ + segment@.skip(i as int)),
                left_over(all) == left_over(pending@ + segment@.skip(i as int)),
            decreases segment@.len() - i,
        {
            let ghost rest = pending@ + segment@.skip(i as int);
            let room = PACKET_BYTES - pending.len();
            let take = if segment.len() - i < room {
                segment.len() - i
            } else {
                room
            };
            pending.extend_from_slice(vstd::slice::slice_subrange(segment, i, i + take));
            i = i + take;
            assert(pending@ + segment@.skip(i as int) =~= rest);
            if pending.len() == PACKET_BYTES {
                let samples = pcm::to_samples(pending.as_slice());
                let ghost frame = samples@;
                let ghost before = out@;
                out.push(speech_packet(samples));
                proof {
                    let tail = segment@.skip(i as int);
                    assert(rest.take(PACKET_BYTES as int) =~= pending@);
                    assert(rest.skip(PACKET_BYTES as int) =~= Seq::<u8>::empty() + tail);
                    lemma_left_over_skip(rest);
                    let now = front.push(frame);
                    assert(now + filled(Seq::<u8>::empty() + tail) =~= front + filled(rest));
                    assert forall|k: int| 0 <= k < out@.len() implies is_speech(
                        #[trigger] out@[k],
                        now[k],
                    ) by {
                        if k < before.len() {
                            assert(out@[k] == before[k]);
                            assert(now[k] == front[k]);
                        }
                    }
                    front = now;
                }
                pending = Vec::new();
            }
        }
        proof {
            assert(pending@ + segment@.skip(i as int) =~= pending@);
            lemma_left_over_short(pending@);
            assert(front + filled(pending@) =~= front);
        }
        *self = Speaker { pending };
        out
    }

    /// The packet of what is left, if anything is, filled up with silence.
    pub fn finish(self) -> (r: Option<AudioOutPacket>)
        requires
            self.pending().len() % 2 == 0,
        ensures
            match last_packet(self.pending()) {
                Some(samples) => r is Some && is_speech(r->Some_0, samples),
                None => r is None,
            },
    {
        proof {
            use_type_invariant(&self);
            lemma_left_over_short(self.pending@);
        }
        if self.pending.len() == 0 {
            return None;
        }
        let mut samples = pcm::to_samples(self.pending.as_slice());
        let ghost x = samples@;
        while samples.len() < PACKET_SAMPLES
            invariant
                x.len() <= samples@.len() <= PACKET_SAMPLES,
                samples@ == x + Seq::new((samples@.len() - x.len()) as nat, |i: int| 0i16),
            decreases PACKET_SAMPLES - samples@.len(),
        {
            samples.push(0);
            assert(samples@ =~= x + Seq::new((samples@.len() - x.len()) as nat, |i: int| 0i16));
        }
        Some(speech_packet(samples))
    }
}

/// Less than a packet is left over whole.
proof fn lemma_left_over_short(s: Seq<u8>)
    requires
        s.len() < PACKET_BYTES,
    ensures
        left_over(s) == s,
{
    assert(s.skip(0) =~= s);
}

/// A packet in front does not change what is left over.
proof fn lemma_left_over_skip(s: Seq<u8>)
    requires
        s.len() >= PACKET_BYTES,
    ensures
        left_over(s.skip(PACKET_BYTES as int)) == left_over(s),
{
    let t = s.skip(PACKET_BYTES as int);
    assert(t.len() as int / 320 == s.len() as int / 320 - 1);
    assert(t.skip(t.len() as int / 320 * 320) =~= s.skip(s.len() as int / 320 * 320));
}

/// The packets in which the segments `segments` go out.
pub fn say(segments: &Vec<Vec<u8>>) -> (r: Vec<AudioOutPacket>)
    requires
        pcm::views(segments@).flatten().len() % 2 == 0,
    ensures
        are_speech(r@, said(pcm::views(segments@).flatten())),
{
    let mut speaker = Speaker::new();
    let mut out: Vec<AudioOutPacket> = Vec::new();
    let mut i: usize = 0;
    proof {
        lemma_left_over_short(Seq::empty());
        assert(pcm::views(segments@.take(0)).flatten() =~= Seq::<u8>::empty());
    }
    while i < segments.len()
        invariant
            i <= segments@.len(),
            are_speech(out@, filled(pcm::views(segments@.take(i as int)).flatten())),
            speaker.pending() == left_over(pcm::views(segments@.take(i as int)).flatten()),
        decreases segments@.len() - i,
    {
        let ghost heard = pcm::views(segments@.take(i as int));
        let ghost before = out@;
        let mut more = speaker.push(segments[i].as_slice());
        let ghost now = more@;
        proof {
            segments_do_not_matter(heard.flatten(), segments@[i as int]@);
            heard.lemma_flatten_push(segments@[i as int]@);
            assert(pcm::views(segments@.take(i + 1)) =~= heard.push(segments@[i as int]@));
        }
        out.append(&mut more);
        i = i + 1;
        proof {
            let samples = filled(pcm::views(segments@.take(i as int)).flatten());
            assert forall|k: int| 0 <= k < out@.len() implies is_speech(
                #[trigger] out@[k],
                samples[k],
            ) by {
                if k < before.len() {
                    assert(out@[k] == before[k]);
                } else {
                    assert(out@[k] == now[k - before.len()]);
                }
            }
        }
    }
    assert(segments@.take(i as int) =~= segments@);
    let ghost all = pcm::views(segments@).flatten();
    proof {
        lemma_left_over_short(left_over(all));
    }
    if let Some(last) = speaker.finish() {
        let ghost before = out@;
        out.push(last);
        proof {
            assert forall|k: int| 0 <= k < out@.len() implies is_speech(
                #[trigger] out@[k],
                said(all)[k],
            ) by {
                if k < before.len() {
                    assert(out@[k] == before[k]);
                }
            }
        }
    }
    out
}

/// A file of sound in segments of one packet each.
pub fn say_test(pcm_data: &[u8]) -> (r: Vec<Vec<u8>>)
    ensures
        pcm::views(r@) == pcm::chunks_of(pcm_data@, PACKET_BYTES as nat),
{
    pcm::to_chunks(pcm_data, PACKET_BYTES)
}

/// How sound is cut into segments does not show in the packets: after `a`, the segment `b` fills
/// the packets that it would fill if both had come at once.
pub proof fn segments_do_not_matter(a: Seq<u8>, b: Seq<u8>)
    ensures
        filled(a + b) == filled(a) + filled(left_over(a) + b),
        left_over(a + b) == left_over(left_over(a) + b),
    decreases a.len(),
{
    if a.len() < PACKET_BYTES {
        lemma_left_over_short(a);
        assert(filled(a) + filled(a + b) =~= filled(a + b));
    } else {
        let t = a.skip(PACKET_BYTES as int);
        assert((a + b).take(PACKET_BYTES as int) =~= a.take(PACKET_BYTES as int));
        assert((a + b).skip(PACKET_BYTES as int) =~= t + b);
        segments_do_not_matter(t, b);
        lemma_left_over_skip(a);
        lemma_left_over_skip(a + b);
        assert(filled(a + b) =~= filled(a) + filled(left_over(a) + b));
    }
}

/// Every packet holds exactly the samples of its ten milliseconds.
pub proof fn packets_are_full(s: Seq<u8>, i: int)
    requires
        0 <= i < said(s).len(),
    ensures
        said(s)[i].len() == PACKET_SAMPLES,
    decreases s.len(),
{
    if s.len() >= PACKET_BYTES {
        let t = s.skip(PACKET_BYTES as int);
        lemma_left_over_skip(s);
        if i > 0 {
            assert(said(s)[i] == said(t)[i - 1]);
            packets_are_full(t, i - 1);
        }
    } else {
        lemma_left_over_short(s);
    }
}

/// The packets hold all samples in order, and after them only silence, less than a packet of it.
pub proof fn nothing_is_lost(s: Seq<u8>)
    requires
        s.len() % 2 == 0,
    ensures
        ({
            let x = pcm::samples_of(s);
            let y = said(s).flatten();
            &&& x.len() <= y.len() < x.len() + PACKET_SAMPLES
            &&& y.take(x.len() as int) == x
            &&& forall|i: int| x.len() <= i < y.len() ==> y[i] == 0
        }),
    decreases s.len(),
{
    let x = pcm::samples_of(s);
    let y = said(s).flatten();
    if s.len() < PACKET_BYTES {
        lemma_left_over_short(s);
        if s.len() > 0 {
            assert(said(s) =~= seq![padded(x)]);
            assert(said(s).drop_first().flatten() =~= Seq::<i16>::empty());
            assert(y =~= padded(x));
        } else {
            assert(said(s) =~= Seq::<Seq<i16>>::empty());
        }
        assert(y.take(x.len() as int) =~= x);
    } else {
        let t = s.skip(PACKET_BYTES as int);
        let head = pcm::samples_of(s.take(PACKET_BYTES as int));
        let rest = pcm::samples_of(t);
        nothing_is_lost(t);
        lemma_left_over_skip(s);
        assert(said(s).drop_first() =~= said(t));
        assert(y =~= head + said(t).flatten());
        assert(x =~= head + rest);
        assert(y.take(x.len() as int) =~= x) by {
            assert forall|i: int| 0 <= i < x.len() implies y[i] == x[i] by {
                if i >= head.len() {
                    assert(said(t).flatten().take(rest.len() as int)[i - head.len()] == rest[i
                        - head.len()]);
                }
            }
        }
    }
}

/// The packets that `s` fills hold its samples, one packet after the other.
proof fn lemma_filled_at(s: Seq<u8>, i: int)
    requires
        0 <= i < s.len() / 320,
    ensures
        filled(s).len() == s.len() / 320,
        filled(s)[i] == pcm::samples_of(s.subrange(320 * i, 320 * i + 320)),
    decreases s.len(),
{
    let t = s.skip(PACKET_BYTES as int);
    lemma_filled_len(s);
    if i == 0 {
        assert(s.subrange(0, 320) =~= s.take(PACKET_BYTES as int));
    } else {
        lemma_filled_at(t, i - 1);
        assert(t.subrange(320 * (i - 1), 320 * (i - 1) + 320) =~= s.subrange(
            320 * i,
            320 * i + 320,
        ));
        assert(filled(s)[i] == filled(t)[i - 1]);
    }
}

/// How many packets `s` fills.
proof fn lemma_filled_len(s: Seq<u8>)
    ensures
        filled(s).len() == s.len() / 320,
    decreases s.len(),
{
    if s.len() >= PACKET_BYTES {
        lemma_filled_len(s.skip(PACKET_BYTES as int));
    }
}

/// Put one after the other, the samples of the packets are exactly the samples of the bytes, two
/// bytes a sample, and after them zeros up to the end of the last packet. There are no more
/// packets than that takes.
pub proof fn packets_hold_the_samples(
    segments: &Vec<Vec<u8>>,
    r: Vec<AudioOutPacket>,
    s: Seq<u8>,
    i: int,
    j: int,
)
    requires
        s == pcm::views(segments@).flatten(),
        s.len() % 2 == 0,
        call_ensures(say, (segments,), r),
        0 <= i < r@.len(),
        0 <= j < 160,
    ensures
        320 * (r@.len() - 1) < s.len() <= 320 * r@.len(),
        r@[i].type_ == 4,
        r@[i].target == 0,
        !r@[i].done,
        r@[i].timestamp == 0,
        r@[i].pcm@.len() == 160,
        ({
            let k = 2 * (160 * i + j);
            let x = r@[i].pcm@[j];
            &&& k >= s.len() ==> x == 0
            &&& k < s.len() && s[k + 1] < 0x80 ==> x == s[k] + 0x100 * s[k + 1]
            &&& k < s.len() && s[k + 1] >= 0x80 ==> x == s[k] + 0x100 * s[k + 1] - 0x1_0000
        }),
{
    lemma_filled_len(s);
    assert(is_speech(r@[i], said(s)[i]));
    let n = s.len() as int / 320;
    if i < n {
        lemma_filled_at(s, i);
    } else {
        let rest = left_over(s);
        assert(rest.len() == s.len() % 320);
        assert(said(s)[i] == padded(pcm::samples_of(rest)));
        assert(pcm::samples_of(rest).len() == rest.len() / 2);
    }
}

/// Where there is nothing to say, nothing is sent.
pub proof fn silence_is_not_sent(segments: &Vec<Vec<u8>>, r: Vec<AudioOutPacket>)
    requires
        call_ensures(say, (segments,), r),
        pcm::views(segments@).flatten().len() == 0,
    ensures
        r@.len() == 0,
{
    lemma_left_over_short(Seq::empty());
    assert(pcm::views(segments@).flatten() =~= Seq::<u8>::empty());
}

/// A segment sends the packets that are full with it, which hold the samples of what was pending
/// and of the segment, and what is pending afterwards are the bytes that fill no packet.
pub proof fn full_packets_are_sent(
    speaker: &mut Speaker,
    segment: &[u8],
    r: Vec<AudioOutPacket>,
    i: int,
    j: int,
)
    requires
        call_ensures(Speaker::push, (speaker, segment), r),
    ensures
        ({
            let s = old(speaker).pending() + segment@;
            &&& r@.len() == s.len() / 320
            &&& final(speaker).pending().len() == s.len() % 320
            &&& s == s.take((320 * r@.len()) as int) + final(speaker).pending()
            &&& 0 <= i < r@.len() ==> r@[i].type_ == 4 && r@[i].target == 0 && !r@[i].done
                && r@[i].timestamp == 0 && r@[i].pcm@.len() == 160
            &&& 0 <= i < r@.len() && 0 <= j < 160 ==> {
                let k = 2 * (160 * i + j);
                let x = r@[i].pcm@[j];
                &&& s[k + 1] < 0x80 ==> x == s[k] + 0x100 * s[k + 1]
                &&& s[k + 1] >= 0x80 ==> x == s[k] + 0x100 * s[k + 1] - 0x1_0000
            }
        }),
{
    let s = old(speaker).pending() + segment@;
    lemma_filled_len(s);
    assert(s =~= s.take((320 * r@.len()) as int) + left_over(s));
    if 0 <= i < r@.len() {
        lemma_filled_at(s, i);
        assert(is_speech(r@[i], filled(s)[i]));
    }
}

/// At the end what is pending goes out, with zeros after it, unless nothing is.
pub proof fn the_rest_is_sent(speaker: Speaker, r: Option<AudioOutPacket>, j: int)
    requires
        call_ensures(Speaker::finish, (speaker,), r),
        speaker.pending().len() < 320,
        speaker.pending().len() % 2 == 0,
    ensures
        r is Some <==> speaker.pending().len() > 0,
        r matches Some(p) ==> p.type_ == 4 && p.target == 0 && !p.done && p.timestamp == 0
            && p.pcm@.len() == 160,
        r is Some && 0 <= j < 160 ==> {
            let s = speaker.pending();
            let x = r->Some_0.pcm@[j];
            &&& 2 * j >= s.len() ==> x == 0
            &&& 2 * j < s.len() && s[2 * j + 1] < 0x80 ==> x == s[2 * j] + 0x100 * s[2 * j + 1]
            &&& 2 * j < s.len() && s[2 * j + 1] >= 0x80 ==> x == s[2 * j] + 0x100 * s[2 * j + 1]
                - 0x1_0000
        },
{
    lemma_left_over_short(speaker.pending());
}

/// A recording is cut into segments of one packet each, of which only the last may be shorter.
pub proof fn recordings_are_cut(pcm_data: &[u8], r: Vec<Vec<u8>>, i: int)
    requires
        call_ensures(say_test, (pcm_data,), r),
    ensures
        pcm_data@.len() <= 320 * r@.len() < pcm_data@.len() + 320,
        0 <= i < r@.len() - 1 ==> r@[i]@ == pcm_data@.subrange(320 * i, 320 * i + 320),
        0 <= i == r@.len() - 1 ==> r@[i]@ == pcm_data@.skip(320 * i),
{
    pcm::lemma_piece_count(pcm_data@, 320);
    pcm::views_are_contents(r@, i);
    if 0 <= i < r@.len() {
        pcm::lemma_piece_at(pcm_data@, 320, i);
        if i == r@.len() - 1 {
            assert(pcm_data@.subrange(i * 320, pcm_data@.len() as int) =~= pcm_data@.skip(320 * i));
        }
    }
}

} // verus!
