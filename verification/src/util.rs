//! The segments of an incoming voice packet.
//!
//! A packet carries segments one after the other. A segment is a varint and a piece of compressed
//! sound: the low thirteen bits of the varint are the length of the piece, and the next bit marks
//! the end of what is said.

use crate::cursor::Cursor;
use crate::pcm;
use crate::varint;
use crate::varint::VarintReader;
use vstd::prelude::*;

verus! {

/// The samples that a segment of a datagram may decode to.
pub const SEGMENT_SAMPLES: usize = 320;

/// The pieces of all segments put together, the number of segments, and whether the last of them
/// marks the end.
pub ghost struct Segments {
    pub data: Seq<u8>,
    pub count: nat,
    pub done: bool,
}

/// The length that a segment's varint announces.
pub open spec fn piece_length(header: u64) -> nat {
    header as nat % 0x2000
}

/// Whether a segment's varint marks the end.
pub open spec fn piece_is_last(header: u64) -> bool {
    (header as nat / 0x2000) % 2 == 1
}

/// The segments `front` and after them the segments `rest`.
pub open spec fn followed_by(front: Segments, rest: Segments) -> Segments {
    Segments {
        data: front.data + rest.data,
        count: front.count + rest.count,
        done: if rest.count == 0 {
            front.done
        } else {
            rest.done
        },
    }
}

/// The segments of `s`. A segment that is cut short counts, and ends the packet, but its bytes are
/// lost.
pub open spec fn segments_of(s: Seq<u8>) -> Segments
    decreases s.len(),
{
    match varint::decode(s) {
        Some((header, n)) => {
            let body = s.skip(n as int);
            let len = piece_length(header);
            let done = piece_is_last(header);
            if len > body.len() {
                Segments { data: Seq::empty(), count: 1, done }
            } else {
                proof {
                    varint::decode_is_local(s, Seq::empty());
                }
                followed_by(
                    Segments { data: body.take(len as int), count: 1, done },
                    segments_of(body.skip(len as int)),
                )
            }
        },
        None => Segments { data: Seq::empty(), count: 0, done: false },
    }
}

/// Whether no segment of `s` is cut short.
pub open spec fn segments_complete(s: Seq<u8>) -> bool
    decreases s.len(),
{
    match varint::decode(s) {
        Some((header, n)) => {
            let body = s.skip(n as int);
            let len = piece_length(header);
            proof {
                varint::decode_is_local(s, Seq::empty());
            }
            len <= body.len() && segments_complete(body.skip(len as int))
        },
        None => true,
    }
}

/// The segments of a packet.
pub struct OpusFrame {
    /// The pieces, put together.
    pub data: Vec<u8>,
    /// How many segments there were.
    pub segments: usize,
    /// Whether the last segment marks the end.
    pub done: bool,
    /// Whether no segment was cut short.
    pub complete: bool,
}

impl OpusFrame {
    /// How many samples to make room for, `None` where they cannot be counted.
    pub fn sample_room(&self, per_segment: usize) -> (r: Option<usize>)
        ensures
            r == if per_segment * self.segments <= usize::MAX {
                Some((per_segment * self.segments) as usize)
            } else {
                None
            },
    {
        per_segment.checked_mul(self.segments)
    }
}

/// Takes a packet apart.
pub fn opus_segments(frame: Vec<u8>) -> (r: OpusFrame)
    ensures
        r.data@ == segments_of(frame@).data,
        r.segments == segments_of(frame@).count,
        r.done == segments_of(frame@).done,
        r.complete == segments_complete(frame@),
        r.segments <= frame@.len(),
{
    let ghost all = frame@;
    assert(all.len() == frame.len());
    let mut rdr = Cursor::new(frame);
    let mut data: Vec<u8> = Vec::new();
    let mut segments: usize = 0;
    let mut done = false;
    let ghost front = Segments { data: Seq::empty(), count: 0, done: false };
    assert(followed_by(front, segments_of(all)).data =~= segments_of(all).data);
    loop
        invariant
            all == frame@,
            all.len() <= usize::MAX,
            segments + rdr.unread().len() <= all.len(),
            segments_of(all) == followed_by(
                Segments { data: data@, count: segments as nat, done },
                segments_of(rdr.unread()),
            ),
            segments_complete(all) == segments_complete(rdr.unread()),
        decreases rdr.unread().len(),
    {
        let ghost front = Segments { data: data@, count: segments as nat, done };
        let ghost s = rdr.unread();
        let header = match rdr.read_varint() {
            Ok(header) => header,
            Err(_) => {
                assert(front.data + Seq::<u8>::empty() =~= front.data);
                return OpusFrame { data, segments, done, complete: true };
            },
        };
        proof {
            varint::decode_is_local(s, Seq::empty());
        }
        let ghost body = rdr.unread();
        done = header / 0x2000 % 2 == 1;
        let len = (header % 0x2000) as usize;
        segments = segments + 1;
        match rdr.read_exact(len) {
            Ok(piece) => {
                let ghost rest = segments_of(rdr.unread());
                data.extend_from_slice(piece.as_slice());
                proof {
                    let one = Segments { data: body.take(len as int), count: 1, done };
                    let now = Segments { data: data@, count: segments as nat, done };
                    assert(data@ =~= front.data + piece@);
                    assert(now.data + rest.data =~= front.data + (one.data + rest.data));
                    assert(followed_by(now, rest) == followed_by(front, followed_by(one, rest)));
                }
            },
            Err(_) => {
                assert(front.data + Seq::<u8>::empty() =~= front.data);
                return OpusFrame { data, segments, done, complete: false };
            },
        }
    }
}

/// The bytes of the sound that the decoder made: of the first samples, as many as it tells, and of
/// none where it failed.
pub fn opus_decode(decoded: Option<usize>, samples: &[i16]) -> (r: Vec<u8>)
    requires
        decoded matches Some(size) ==> size <= samples@.len(),
    ensures
        r@ == match decoded {
            Some(size) => pcm::bytes_of(samples@.take(size as int)),
            None => Seq::<u8>::empty(),
        },
{
    match decoded {
        Some(size) => pcm::to_bytes(samples, size),
        None => Vec::new(),
    }
}

/// A segment with the piece `piece`, which marks the end where `done`.
pub open spec fn segment_bytes(piece: Seq<u8>, done: bool) -> Seq<u8> {
    varint::encode(
        (piece.len() + if done {
            0x2000int
        } else {
            0
        }) as u64,
    ) + piece
}

/// Segments with the pieces `pieces`, the last of which marks the end where `done`.
pub open spec fn packed(pieces: Seq<Seq<u8>>, done: bool) -> Seq<u8>
    decreases pieces.len(),
{
    if pieces.len() == 0 {
        Seq::empty()
    } else {
        segment_bytes(pieces[0], done && pieces.len() == 1) + packed(pieces.drop_first(), done)
    }
}

/// Pieces that are sent as segments of one packet come out one after the other, with the mark of
/// the end.
pub proof fn pieces_come_out(pieces: Seq<Seq<u8>>, done: bool)
    requires
        pieces.len() > 0,
        forall|i: int| 0 <= i < pieces.len() ==> (#[trigger] pieces[i]).len() < 0x2000,
    ensures
        segments_complete(packed(pieces, done)),
        segments_of(packed(pieces, done)) == (Segments {
            data: pieces.flatten(),
            count: pieces.len(),
            done,
        }),
    decreases pieces.len(),
{
    let piece = pieces[0];
    let last = done && pieces.len() == 1;
    let header = (piece.len() + if last {
        0x2000int
    } else {
        0
    }) as u64;
    let head = varint::encode(header);
    let rest = packed(pieces.drop_first(), done);
    let s = packed(pieces, done);
    let body = piece + rest;
    assert(s =~= head + body);
    varint::round_trip(header, body);
    assert(s.skip(head.len() as int) =~= body);
    assert(piece_length(header) == piece.len());
    assert(piece_is_last(header) == last);
    assert(body.take(piece.len() as int) =~= piece);
    assert(body.skip(piece.len() as int) =~= rest);
    if pieces.len() == 1 {
        assert(rest == Seq::<u8>::empty());
        assert(segments_of(rest).count == 0);
        assert(segments_complete(rest));
        assert(pieces.drop_first().flatten() =~= Seq::<u8>::empty());
    } else {
        pieces_come_out(pieces.drop_first(), done);
    }
    assert(segments_of(s).data =~= pieces.flatten());
}

/// A piece that is sent as one segment comes out as it was.
pub proof fn one_segment(piece: Seq<u8>)
    requires
        piece.len() < 0x2000,
    ensures
        segments_complete(varint::encode(piece.len() as u64) + piece),
        segments_of(varint::encode(piece.len() as u64) + piece) == (Segments {
            data: piece,
            count: 1,
            done: false,
        }),
{
    let pieces = seq![piece];
    let s = varint::encode(piece.len() as u64) + piece;
    pieces_come_out(pieces, false);
    assert(packed(pieces.drop_first(), false) == Seq::<u8>::empty());
    assert(packed(pieces, false) =~= s);
    assert(pieces.drop_first().flatten() =~= Seq::<u8>::empty());
    assert(pieces.flatten() =~= piece);
}

/// The segments of a frame, one by one: a number whose low thirteen bits are the length of a
/// piece, and the piece; the next bit marks the end of what is said, and the last mark counts. A
/// piece that is cut short counts as a segment, ends the frame and is lost.
pub proof fn segments_follow_each_other(
    spelling: Seq<u8>,
    header: u64,
    piece: Seq<u8>,
    rest: Seq<u8>,
)
    requires
        varint::decode(spelling) == Some((header, spelling.len())),
    ensures
        piece.len() == header & 0x1FFF ==> {
            let s = segments_of(spelling + piece + rest);
            let later = segments_of(rest);
            &&& s.data == piece + later.data
            &&& s.count == 1 + later.count
            &&& later.count == 0 ==> s.done == (header & 0x2000 != 0)
            &&& later.count > 0 ==> s.done == later.done
            &&& segments_complete(spelling + piece + rest) == segments_complete(rest)
        },
        piece.len() < header & 0x1FFF ==> {
            let s = segments_of(spelling + piece);
            &&& s.data.len() == 0
            &&& s.count == 1
            &&& s.done == (header & 0x2000 != 0)
            &&& !segments_complete(spelling + piece)
        },
{
    assert(header & 0x1FFF == header % 0x2000) by (bit_vector);
    assert((header & 0x2000 != 0) == (header / 0x2000 % 2 == 1)) by (bit_vector);
    assert(spelling.take(spelling.len() as int) =~= spelling);
    if piece.len() == header & 0x1FFF {
        let s = spelling + piece + rest;
        let body = piece + rest;
        varint::decode_is_local(spelling, body);
        assert(s =~= spelling + body);
        assert(s.skip(spelling.len() as int) =~= body);
        assert(body.take(piece.len() as int) =~= piece);
        assert(body.skip(piece.len() as int) =~= rest);
    } else if piece.len() < header & 0x1FFF {
        let s = spelling + piece;
        varint::decode_is_local(spelling, piece);
        assert(s.skip(spelling.len() as int) =~= piece);
    }
}

/// Bytes that spell no number are no segment.
pub proof fn no_segment_without_a_number(s: Seq<u8>)
    requires
        varint::decode(s) is None,
    ensures
        segments_of(s).data.len() == 0,
        segments_of(s).count == 0,
        !segments_of(s).done,
        segments_complete(s),
{
}

/// A frame is taken apart into the pieces of its segments, their number and the last mark.
pub proof fn frames_are_taken_apart(frame: Vec<u8>, r: OpusFrame)
    requires
        call_ensures(opus_segments, (frame,), r),
    ensures
        (Segments { data: r.data@, count: r.segments as nat, done: r.done }) == segments_of(frame@),
        r.complete == segments_complete(frame@),
{
}

/// Of the samples that a decoder made, exactly as many as it tells become bytes, each two of them.
pub proof fn decoded_samples_become_bytes(
    decoded: Option<usize>,
    samples: &[i16],
    r: Vec<u8>,
    i: int,
)
    requires
        decoded matches Some(size) ==> size <= samples@.len(),
        call_ensures(opus_decode, (decoded, samples), r),
    ensures
        decoded is None ==> r@.len() == 0,
        decoded matches Some(size) ==> r@.len() == 2 * size,
        decoded is Some && 0 <= i < decoded->Some_0 && samples@[i] >= 0 ==> r@[2 * i] + 0x100 * r@[2
            * i + 1] == samples@[i],
        decoded is Some && 0 <= i < decoded->Some_0 && samples@[i] < 0 ==> r@[2 * i] + 0x100 * r@[2
            * i + 1] == samples@[i] + 0x1_0000,
{
    if decoded is Some && 0 <= i < decoded->Some_0 {
        assert((2 * i) / 2 == i && (2 * i) % 2 == 0);
        assert((2 * i + 1) / 2 == i && (2 * i + 1) % 2 == 1);
        assert(samples@.take(decoded->Some_0 as int)[i] == samples@[i]);
    }
}

/// There is room for as many samples as the segments may decode to, unless they cannot be counted.
pub proof fn room_is_made(frame: &OpusFrame, per_segment: usize, r: Option<usize>)
    requires
        call_ensures(OpusFrame::sample_room, (frame, per_segment), r),
    ensures
        r is Some <==> per_segment * frame.segments <= usize::MAX,
        r is Some ==> r->Some_0 == per_segment * frame.segments,
{
}

} // verus!
