//! Variable-length integers, as they travel in voice packets.
//!
//! A number takes one to nine bytes, and the leading bits of the first byte tell how many:
//!
//! | first byte   | what follows                                    |
//! |--------------|-------------------------------------------------|
//! | `0xxxxxxx`   | nothing: the seven bits are the number          |
//! | `10xxxxxx`   | one byte                                        |
//! | `110xxxxx`   | two bytes                                       |
//! | `1110xxxx`   | three bytes                                     |
//! | `111100__`   | four bytes, which are the number                |
//! | `111101__`   | eight bytes, which are the number               |
//! | `111110__`   | a varint, whose bitwise complement is the number|
//! | `111111xx`   | nothing: the number is the complement of `xx`   |

use crate::cursor;
use crate::cursor::{ByteSink, ByteSource};
use crate::network;
use crate::network::push_be;
use vstd::prelude::*;

verus! {

/// `head` followed by the `n` bytes after the first byte of `s`, as one number, and the number of
/// bytes that it took.
pub open spec fn decode_tail(s: Seq<u8>, head: nat, n: nat) -> Option<(u64, nat)> {
    if s.len() < 1 + n {
        None
    } else {
        Some(
            (
                (head * network::be_range(n) + network::be_value(
                    s.subrange(1, 1 + n as int),
                )) as u64,
                1 + n,
            ),
        )
    }
}

/// The varint at the front of `s` and its length, unless `s` ends too early.
pub open spec fn decode(s: Seq<u8>) -> Option<(u64, nat)>
    decreases s.len(),
{
    if s.len() == 0 {
        None
    } else if s[0] < 0x80 {
        Some((s[0] as u64, 1))
    } else if s[0] < 0xC0 {
        decode_tail(s, (s[0] - 0x80) as nat, 1)
    } else if s[0] < 0xE0 {
        decode_tail(s, (s[0] - 0xC0) as nat, 2)
    } else if s[0] < 0xF0 {
        decode_tail(s, (s[0] - 0xE0) as nat, 3)
    } else if s[0] < 0xF4 {
        decode_tail(s, 0, 4)
    } else if s[0] < 0xF8 {
        decode_tail(s, 0, 8)
    } else if s[0] < 0xFC {
        match decode(s.skip(1)) {
            Some((v, n)) => Some(((u64::MAX - v) as u64, n + 1)),
            None => None,
        }
    } else {
        Some(((u64::MAX - (s[0] - 0xFC)) as u64, 1))
    }
}

/// The bits of the number that a first byte holds, and how many bytes follow them.
spec fn first_split(b: u8) -> (nat, nat) {
    if b < 0x80 {
        (b as nat, 0)
    } else if b < 0xC0 {
        ((b - 0x80) as nat, 1)
    } else if b < 0xE0 {
        ((b - 0xC0) as nat, 2)
    } else if b < 0xF0 {
        ((b - 0xE0) as nat, 3)
    } else if b < 0xF4 {
        (0, 4)
    } else if b < 0xF8 {
        (0, 8)
    } else {
        ((u64::MAX - (b - 0xFC)) as nat, 0)
    }
}

/// Unless it asks for the complement, the first byte is the head of the number, and what follows
/// is the tail.
proof fn lemma_decode_first(s: Seq<u8>)
    requires
        s.len() > 0,
        !(0xF8 <= s[0] < 0xFC),
    ensures
        ({
            let (head, n) = first_split(s[0]);
            &&& (head + 1) * network::be_range(n) <= 0x1_0000_0000_0000_0000
            &&& decode(s) == decode_tail(s, head, n)
        }),
{
    let (head, n) = first_split(s[0]);
    network::be_range_values();
    if n == 0 {
        assert(s.subrange(1, 1) =~= Seq::<u8>::empty());
        assert((head + 1) * 1 == head + 1);
        assert(head * 1 == head);
        assert(network::be_value(s.subrange(1, 1)) == 0);
    } else if n == 1 {
        assert((head + 1) * 0x100 <= 0x1_0000_0000_0000_0000);
    } else if n == 2 {
        assert((head + 1) * 0x1_0000 <= 0x1_0000_0000_0000_0000);
    } else if n == 3 {
        assert((head + 1) * 0x100_0000 <= 0x1_0000_0000_0000_0000);
    } else if n == 4 {
        assert((head + 1) * 0x1_0000_0000 <= 0x1_0000_0000_0000_0000);
    } else {
        assert((head + 1) * network::be_range(8) == network::be_range(8));
    }
}

/// See `first_split`.
fn split_first(b: u8) -> (r: (u64, u8))
    ensures
        !(0xF8 <= b < 0xFC) ==> (r.0 as nat, r.1 as nat) == first_split(b),
{
    if b < 0x80 {
        (b as u64, 0)
    } else if b < 0xC0 {
        ((b - 0x80) as u64, 1)
    } else if b < 0xE0 {
        ((b - 0xC0) as u64, 2)
    } else if b < 0xF0 {
        ((b - 0xE0) as u64, 3)
    } else if b < 0xF4 {
        (0, 4)
    } else if b < 0xF8 {
        (0, 8)
    } else if b < 0xFC {
        (0, 0)
    } else {
        (u64::MAX - (b - 0xFC) as u64, 0)
    }
}

/// The bytes of `v` without a sign.
pub open spec fn encode_unsigned(v: nat) -> Seq<u8> {
    if v < 0x80 {
        network::be_bytes(v, 1)
    } else if v < 0x4000 {
        network::be_bytes(0x8000 + v, 2)
    } else if v < 0x20_0000 {
        network::be_bytes(0xC0_0000 + v, 3)
    } else if v < 0x1000_0000 {
        network::be_bytes(0xE000_0000 + v, 4)
    } else if v < 0x1_0000_0000 {
        seq![0xF0u8] + network::be_bytes(v, 4)
    } else {
        seq![0xF4u8] + network::be_bytes(v, 8)
    }
}

/// The bytes of `v`. A number whose complement fits in 32 bits is written as that complement.
pub open spec fn encode(v: u64) -> Seq<u8> {
    let complement = (u64::MAX - v) as nat;
    if complement <= 3 {
        seq![(0xFC + complement) as u8]
    } else if complement < 0x1_0000_0000 {
        seq![0xF8u8] + encode_unsigned(complement)
    } else {
        encode_unsigned(v as nat)
    }
}

/// Where nothing is left, everything was taken.
proof fn lemma_used_up(all: Seq<u8>, taken: Seq<u8>, left: Seq<u8>)
    requires
        taken + left == all,
        left.len() == 0,
    ensures
        taken == all,
{
    assert(taken + left =~= taken);
}

/// To take the next byte is to move it from what is left to what was taken.
proof fn lemma_one_taken(taken: Seq<u8>, left: Seq<u8>)
    requires
        left.len() > 0,
    ensures
        taken.push(left[0]) + left.skip(1) == taken + left,
{
    assert(taken.push(left[0]) + left.skip(1) =~= taken + left);
}

/// Where `n` bytes less are left, they were taken.
proof fn lemma_front_taken(before: Seq<u8>, start: Seq<u8>, taken: Seq<u8>, n: int)
    requires
        0 <= n <= start.len(),
        taken + start.skip(n) == before + start,
    ensures
        taken == before + start.take(n),
{
    let all = before + start;
    assert((taken + start.skip(n)).len() == taken.len() + start.skip(n).len());
    assert(taken =~= all.take(taken.len() as int)) by {
        assert((taken + start.skip(n)).take(taken.len() as int) =~= taken);
    }
    assert(all.take(before.len() + n) =~= before + start.take(n));
}

/// Reads varints from a source of bytes.
pub trait VarintReader: ByteSource {
    /// Takes the varint in front. Where the bytes end before it does, they are used up and the
    /// source's own failure is told.
    fn read_varint(&mut self) -> (r: Result<u64, Self::Error>)
        ensures
            final(self).end() == old(self).end(),
            match decode(old(self).remaining()) {
                Some((v, n)) => {
                    &&& r == Ok::<u64, Self::Error>(v)
                    &&& final(self).remaining() == old(self).remaining().skip(n as int)
                    &&& final(self).taken() == old(self).taken() + old(self).remaining().take(
                        n as int,
                    )
                },
                None => {
                    &&& r == Err::<u64, Self::Error>(old(self).end())
                    &&& final(self).remaining() == Seq::<u8>::empty()
                    &&& final(self).taken() == old(self).taken() + old(self).remaining()
                },
            },
    {
        let ghost start = self.remaining();
        let ghost mut passed: nat = 0;
        let mut complemented = false;
        assert(start.skip(0) =~= start);
        loop
            invariant
                passed <= start.len(),
                start == old(self).remaining(),
                self.end() == old(self).end(),
                self.remaining() == start.skip(passed as int),
                self.taken() + self.remaining() == old(self).taken() + start,
                decode(start) == match decode(start.skip(passed as int)) {
                    Some((v, n)) => Some(
                        (
                            if complemented {
                                (u64::MAX - v) as u64
                            } else {
                                v
                            },
                            n + passed,
                        ),
                    ),
                    None => None,
                },
            decreases self.remaining().len(),
        {
            let ghost front = self.remaining();
            let ghost before = self.taken();
            let first = match self.read_byte() {
                Ok(first) => first,
                Err(e) => {
                    proof {
                        lemma_used_up(old(self).taken() + start, self.taken(), self.remaining());
                    }
                    return Err(e);
                },
            };
            assert(front.skip(1) =~= start.skip(passed as int + 1));
            proof {
                lemma_one_taken(before, front);
            }
            if first >= 0xF8 && first < 0xFC {
                complemented = !complemented;
                proof {
                    passed = passed + 1;
                }
            } else {
                let (head, count) = split_first(first);
                proof {
                    lemma_decode_first(front);
                    if 1 + count <= front.len() {
                        assert(front.subrange(1, 1 + count as int) =~= front.skip(1).take(
                            count as int,
                        ));
                        assert(front.skip(1).skip(count as int) =~= start.skip(
                            passed as int + 1 + count,
                        ));
                    }
                }
                let v = match read_tail(self, head, count) {
                    Ok(v) => v,
                    Err(e) => {
                        return Err(e);
                    },
                };
                proof {
                    lemma_front_taken(
                        old(self).taken(),
                        start,
                        self.taken(),
                        passed as int + 1 + count,
                    );
                }
                return Ok(
                    if complemented {
                        u64::MAX - v
                    } else {
                        v
                    },
                );
            }
        }
    }
}

impl<R: ByteSource> VarintReader for R {

}

/// Takes `count` bytes and appends them to `head`.
fn read_tail<R: ByteSource>(rdr: &mut R, head: u64, count: u8) -> (r: Result<u64, R::Error>)
    requires
        (head + 1) * network::be_range(count as nat) <= 0x1_0000_0000_0000_0000,
    ensures
        final(rdr).end() == old(rdr).end(),
        old(rdr).remaining().len() < count ==> r == Err::<u64, R::Error>(old(rdr).end())
            && final(rdr).remaining() == Seq::<u8>::empty() && final(rdr).taken() == old(
            rdr,
        ).taken() + old(rdr).remaining(),
        old(rdr).remaining().len() >= count ==> r == Ok::<u64, R::Error>(
            (head * network::be_range(count as nat) + network::be_value(
                old(rdr).remaining().take(count as int),
            )) as u64,
        ) && final(rdr).remaining() == old(rdr).remaining().skip(count as int) && final(rdr).taken()
            + final(rdr).remaining() == old(rdr).taken() + old(rdr).remaining(),
{
    let ghost start = rdr.remaining();
    let mut value = head;
    let mut i: u8 = 0;
    proof {
        assert(start.skip(0) =~= start);
        assert(start.take(0) =~= Seq::<u8>::empty());
        assert(head * 1 == head);
    }
    while i < count
        invariant
            i <= count,
            i <= start.len(),
            start == old(rdr).remaining(),
            (head + 1) * network::be_range(count as nat) <= 0x1_0000_0000_0000_0000,
            rdr.end() == old(rdr).end(),
            rdr.remaining() == start.skip(i as int),
            rdr.taken() + rdr.remaining() == old(rdr).taken() + start,
            value == head * network::be_range(i as nat) + network::be_value(
                start.take(i as int),
            ),
        decreases count - i,
    {
        let ghost before = rdr.taken();
        let b = match rdr.read_byte() {
            Ok(b) => b,
            Err(e) => {
                assert(rdr.remaining() =~= Seq::<u8>::empty());
                proof {
                    lemma_used_up(old(rdr).taken() + start, rdr.taken(), rdr.remaining());
                }
                return Err(e);
            },
        };
        proof {
            let range = network::be_range(i as nat);
            let low = network::be_value(start.take(i as int));
            assert(start.take(i + 1).drop_last() =~= start.take(i as int));
            assert(start.skip(i as int).skip(1) =~= start.skip(i + 1));
            lemma_one_taken(before, start.skip(i as int));
            network::be_value_round_trip(start.take(i as int));
            network::lemma_be_range_monotonic(i as nat + 1, count as nat);
            assert(head * (range * 256) == head * range * 256) by (nonlinear_arith);
            assert(head * range + low + 1 <= (head + 1) * range) by (nonlinear_arith)
                requires
                    low < range,
            ;
            assert((head + 1) * range * 256 == (head + 1) * (range * 256)) by (nonlinear_arith);
            assert((head + 1) * network::be_range(i as nat + 1) <= (head + 1)
                * network::be_range(count as nat)) by (nonlinear_arith)
                requires
                    network::be_range(i as nat + 1) <= network::be_range(count as nat),
                    head >= 0,
            ;
        }
        value = value * 256 + b as u64;
        i = i + 1;
    }
    Ok(value)
}

/// Writes varints to a destination of bytes.
pub trait VarintWriter: ByteSink {
    /// Hands the bytes of `value` to the destination in one write, and tells how many it took,
    /// or the destination's own failure.
    fn write_varint(&mut self, value: u64) -> (r: Result<usize, Self::Error>)
        ensures
            match old(self).refusal() {
                None => {
                    let n = Self::accepts(old(self).ahead().len(), encode(value).len());
                    &&& r == Ok::<usize, Self::Error>(n as usize)
                    &&& final(self).written() == old(self).written() + encode(value).take(n as int)
                    &&& final(self).ahead() == cursor::overwritten(old(self).ahead(), n)
                },
                Some(e) => {
                    &&& r == Err::<usize, Self::Error>(e)
                    &&& final(self).written() == old(self).written()
                    &&& final(self).ahead() == old(self).ahead()
                },
            },
    {
        let mut buf: Vec<u8> = Vec::new();
        let complement = u64::MAX - value;
        if complement <= 3 {
            buf.push(0xFC + complement as u8);
            assert(buf@ =~= encode(value));
        } else if complement < 0x1_0000_0000 {
            buf.push(0xF8);
            write_unsigned(&mut buf, complement);
            assert(buf@ =~= encode(value));
        } else {
            write_unsigned(&mut buf, value);
            assert(buf@ =~= encode(value));
        }
        self.write_bytes(buf.as_slice())
    }
}

impl<W: ByteSink> VarintWriter for W {

}

/// Appends the bytes of `v` without a sign.
fn write_unsigned(out: &mut Vec<u8>, v: u64)
    ensures
        final(out)@ == old(out)@ + encode_unsigned(v as nat),
{
    if v < 0x80 {
        push_be(out, v, 1);
    } else if v < 0x4000 {
        push_be(out, 0x8000 + v, 2);
    } else if v < 0x20_0000 {
        push_be(out, 0xC0_0000 + v, 3);
    } else if v < 0x1000_0000 {
        push_be(out, 0xE000_0000 + v, 4);
    } else if v < 0x1_0000_0000 {
        out.push(0xF0);
        push_be(out, v, 4);
    } else {
        out.push(0xF4);
        push_be(out, v, 8);
    }
    assert(out@ =~= old(out)@ + encode_unsigned(v as nat));
}

/// A number without a sign is read back as it was written, whatever follows it.
proof fn lemma_unsigned_round_trip(v: nat, rest: Seq<u8>)
    requires
        v <= u64::MAX,
    ensures
        1 <= encode_unsigned(v).len() <= 9,
        decode(encode_unsigned(v) + rest) == Some((v as u64, encode_unsigned(v).len())),
{
    network::be_range_values();
    let s = encode_unsigned(v) + rest;
    if v < 0x80 {
        network::lemma_be_head(v, 0, 0);
        assert(v * 1 == v);
        assert(s[0] == v);
    } else if v < 0x4000 {
        lemma_headed_round_trip(0x80, v / 0x100, v % 0x100, 1, rest);
    } else if v < 0x20_0000 {
        lemma_headed_round_trip(0xC0, v / 0x1_0000, v % 0x1_0000, 2, rest);
    } else if v < 0x1000_0000 {
        lemma_headed_round_trip(0xE0, v / 0x100_0000, v % 0x100_0000, 3, rest);
    } else if v < 0x1_0000_0000 {
        network::be_round_trip(v, 4);
        assert(s.subrange(1, 5) =~= network::be_bytes(v, 4));
    } else {
        network::be_round_trip(v, 8);
        assert(s.subrange(1, 9) =~= network::be_bytes(v, 8));
    }
}

/// The forms whose first byte holds some bits of the number.
proof fn lemma_headed_round_trip(mark: nat, head: nat, low: nat, n: nat, rest: Seq<u8>)
    requires
        n == 1 && mark == 0x80 && head < 0x40 || n == 2 && mark == 0xC0 && head < 0x20 || n == 3
            && mark == 0xE0 && head < 0x10,
        low < network::be_range(n),
    ensures
        ({
            let s = network::be_bytes(
                (mark + head) * network::be_range(n) + low,
                n + 1,
            );
            &&& s.len() == n + 1
            &&& decode(s + rest) == Some(((head * network::be_range(n) + low) as u64, n + 1))
        }),
{
    let s = network::be_bytes((mark + head) * network::be_range(n) + low, n + 1);
    network::lemma_be_head(mark + head, low, n);
    network::be_round_trip(low, n);
    assert((s + rest)[0] == mark + head);
    assert((s + rest).subrange(1, 1 + n as int) =~= network::be_bytes(low, n));
}

/// What is written is read back: a number comes out as it went in, whatever follows it, and
/// exactly its own bytes are used up.
pub proof fn round_trip(v: u64, rest: Seq<u8>)
    ensures
        decode(encode(v) + rest) == Some((v, encode(v).len())),
{
    let complement = (u64::MAX - v) as nat;
    let s = encode(v) + rest;
    if complement <= 3 {
        assert(s[0] == 0xFC + complement);
    } else if complement < 0x1_0000_0000 {
        lemma_unsigned_round_trip(complement, rest);
        assert(s[0] == 0xF8);
        assert(s.skip(1) =~= encode_unsigned(complement) + rest);
    } else {
        lemma_unsigned_round_trip(v as nat, rest);
    }
}

/// A number takes one to nine bytes.
pub proof fn encoded_length(v: u64)
    ensures
        1 <= encode(v).len() <= 9,
{
    let complement = (u64::MAX - v) as nat;
    lemma_unsigned_round_trip(complement, Seq::empty());
    lemma_unsigned_round_trip(v as nat, Seq::empty());
    if complement < 0x1_0000_0000 {
        lemma_unsigned_length(complement);
    }
}

/// How long the bytes of a number without a sign are.
proof fn lemma_unsigned_length(v: nat)
    ensures
        encode_unsigned(v).len() == if v < 0x80 {
            1nat
        } else if v < 0x4000 {
            2nat
        } else if v < 0x20_0000 {
            3nat
        } else if v < 0x1000_0000 {
            4nat
        } else if v < 0x1_0000_0000 {
            5nat
        } else {
            9nat
        },
{
    network::lemma_be_bytes_len(v, 1);
    network::lemma_be_bytes_len(0x8000 + v, 2);
    network::lemma_be_bytes_len(0xC0_0000 + v, 3);
    network::lemma_be_bytes_len(0xE000_0000 + v, 4);
    network::lemma_be_bytes_len(v, 4);
    network::lemma_be_bytes_len(v, 8);
}

/// Different numbers have different bytes.
pub proof fn encode_is_injective(a: u64, b: u64)
    requires
        encode(a) == encode(b),
    ensures
        a == b,
{
    round_trip(a, Seq::empty());
    round_trip(b, Seq::empty());
}

/// A varint ends where its own bytes say: it takes at least one byte, none past the end, and what
/// follows it has no say in its value.
pub proof fn decode_is_local(s: Seq<u8>, rest: Seq<u8>)
    requires
        decode(s) is Some,
    ensures
        1 <= decode(s)->Some_0.1 <= s.len(),
        decode(s.take(decode(s)->Some_0.1 as int) + rest) == decode(s),
    decreases s.len(),
{
    let n = decode(s)->Some_0.1;
    if 0xF8 <= s[0] < 0xFC {
        decode_is_local(s.skip(1), rest);
        assert((s.take(n as int) + rest).skip(1) =~= s.skip(1).take(n - 1) + rest);
    } else {
        lemma_decode_first(s);
        let t = s.take(n as int) + rest;
        lemma_decode_first(t);
        assert(t.subrange(1, n as int) =~= s.subrange(1, n as int));
    }
}

/// No other spelling of a number is shorter than the one that is written.
pub proof fn encode_is_shortest(s: Seq<u8>)
    requires
        decode(s) is Some,
    ensures
        encode(decode(s)->Some_0.0).len() <= decode(s)->Some_0.1,
    decreases s.len(),
{
    let (v, n) = decode(s)->Some_0;
    let complement = (u64::MAX - v) as nat;
    lemma_unsigned_length(v as nat);
    lemma_unsigned_length(complement);
    if 0xF8 <= s[0] < 0xFC {
        encode_is_shortest(s.skip(1));
    } else {
        lemma_decode_first(s);
        network::be_range_values();
        let (head, count) = first_split(s[0]);
        if count == 0 {
            assert(s.subrange(1, 1) =~= Seq::<u8>::empty());
            assert(head * 1 == head);
        } else {
            let tail = s.subrange(1, 1 + count as int);
            network::be_value_round_trip(tail);
            assert(tail.len() == count);
            if count == 1 {
                assert(v == head * 0x100 + network::be_value(tail));
            } else if count == 2 {
                assert(v == head * 0x1_0000 + network::be_value(tail));
            } else if count == 3 {
                assert(v == head * 0x100_0000 + network::be_value(tail));
            } else if count == 4 {
                assert(0 * 0x1_0000_0000 == 0);
                assert(v == network::be_value(tail));
            }
        }
    }
}

/// A number below 0x80 is spelled by the one byte of its value.
pub proof fn one_byte_numbers(v: u64)
    requires
        v < 0x80,
    ensures
        encode(v) == seq![v as u8],
{
    let low = v as nat;
    network::spelled_out(low);
    assert(encode(v) =~= seq![v as u8]);
}

/// A number of eight to fourteen bits follows two bits that tell so, the high-order bits first.
pub proof fn two_byte_numbers(v: u64)
    requires
        0x80 <= v < 0x4000,
    ensures
        encode(v) == seq![(0x80 + v / 0x100) as u8, (v % 0x100) as u8],
{
    let low = v as nat;
    network::spelled_out(0x8000 + low);
    assert(encode(v) =~= seq![(0x80 + v / 0x100) as u8, (v % 0x100) as u8]);
}

/// A number of up to 21 bits follows three bits that tell so.
pub proof fn three_byte_numbers(v: u64)
    requires
        0x4000 <= v < 0x20_0000,
    ensures
        encode(v) == seq![
        (0xC0 + v / 0x1_0000) as u8,
        (v / 0x100 % 0x100) as u8,
        (v % 0x100) as u8,
    ],
{
    let low = v as nat % 0x1_0000;
    network::be_range_values();
    network::lemma_be_head(0xC0 + v as nat / 0x1_0000, low, 2);
    assert((0xC0 + v as nat / 0x1_0000) * 0x1_0000 + low == 0xC0 * 0x1_0000 + v);
    network::number_is_spelled(low, 2, 0);
    network::number_is_spelled(low, 2, 1);
    assert(v % 0x1_0000 / 0x100 % 0x100 == v / 0x100 % 0x100) by (bit_vector);
    assert(v % 0x1_0000 % 0x100 == v % 0x100) by (bit_vector);
    assert(low == v % 0x1_0000);
    assert(encode(v) =~= seq![
        (0xC0 + v / 0x1_0000) as u8,
        (v / 0x100 % 0x100) as u8,
        (v % 0x100) as u8,
    ]);
}

/// A number of up to 28 bits follows four bits that tell so.
pub proof fn four_byte_numbers(v: u64)
    requires
        0x20_0000 <= v < 0x1000_0000,
    ensures
        encode(v) == seq![
        (0xE0 + v / 0x100_0000) as u8,
        (v / 0x1_0000 % 0x100) as u8,
        (v / 0x100 % 0x100) as u8,
        (v % 0x100) as u8,
    ],
{
    let low = v as nat % 0x100_0000;
    network::be_range_values();
    network::lemma_be_head(0xE0 + v as nat / 0x100_0000, low, 3);
    assert((0xE0 + v as nat / 0x100_0000) * 0x100_0000 + low == 0xE0 * 0x100_0000 + v);
    network::number_is_spelled(low, 3, 0);
    network::number_is_spelled(low, 3, 1);
    network::number_is_spelled(low, 3, 2);
    assert(v % 0x100_0000 / 0x1_0000 % 0x100 == v / 0x1_0000 % 0x100) by (bit_vector);
    assert(v % 0x100_0000 / 0x100 % 0x100 == v / 0x100 % 0x100) by (bit_vector);
    assert(v % 0x100_0000 % 0x100 == v % 0x100) by (bit_vector);
    assert(low == v % 0x100_0000);
    assert(encode(v) =~= seq![
        (0xE0 + v / 0x100_0000) as u8,
        (v / 0x1_0000 % 0x100) as u8,
        (v / 0x100 % 0x100) as u8,
        (v % 0x100) as u8,
    ]);
}

/// A number of up to 32 bits follows a byte that tells so.
pub proof fn five_byte_numbers(v: u64)
    requires
        0x1000_0000 <= v < 0x1_0000_0000,
    ensures
        encode(v) == seq![
        0xF0u8,
        (v / 0x100_0000) as u8,
        (v / 0x1_0000 % 0x100) as u8,
        (v / 0x100 % 0x100) as u8,
        (v % 0x100) as u8,
    ],
{
    let low = v as nat;
    network::spelled_out(low);
    assert(encode(v) =~= seq![
        0xF0u8,
        (v / 0x100_0000) as u8,
        (v / 0x1_0000 % 0x100) as u8,
        (v / 0x100 % 0x100) as u8,
        (v % 0x100) as u8,
    ]);
}

/// A number of more bits follows a byte that tells so, unless its complement is short.
pub proof fn nine_byte_numbers(v: u64)
    requires
        0x1_0000_0000 <= v < 0xFFFF_FFFF_0000_0000,
    ensures
        encode(v) == seq![
        0xF4u8,
        (v / 0x100_0000_0000_0000) as u8,
        (v / 0x1_0000_0000_0000 % 0x100) as u8,
        (v / 0x100_0000_0000 % 0x100) as u8,
        (v / 0x1_0000_0000 % 0x100) as u8,
        (v / 0x100_0000 % 0x100) as u8,
        (v / 0x1_0000 % 0x100) as u8,
        (v / 0x100 % 0x100) as u8,
        (v % 0x100) as u8,
    ],
{
    let low = v as nat;
    network::spelled_out(low);
    assert(encode(v) =~= seq![
        0xF4u8,
        (v / 0x100_0000_0000_0000) as u8,
        (v / 0x1_0000_0000_0000 % 0x100) as u8,
        (v / 0x100_0000_0000 % 0x100) as u8,
        (v / 0x1_0000_0000 % 0x100) as u8,
        (v / 0x100_0000 % 0x100) as u8,
        (v / 0x1_0000 % 0x100) as u8,
        (v / 0x100 % 0x100) as u8,
        (v % 0x100) as u8,
    ]);
}

/// A number whose complement has up to 32 bits is spelled by that complement: the four smallest
/// complements stand in the one byte, and the others follow a byte that tells so.
pub proof fn complements_are_spelled(v: u64)
    requires
        v >= 0xFFFF_FFFF_0000_0000,
    ensures
        v < 0xFFFF_FFFF_FFFF_FFFC ==> encode(v) == seq![0xF8u8] + encode(
            (0xFFFF_FFFF_FFFF_FFFF - v) as u64,
        ),
        v >= 0xFFFF_FFFF_FFFF_FFFC ==> encode(v) == seq![
            (0xFC + (0xFFFF_FFFF_FFFF_FFFF - v)) as u8,
        ],
{
    let complement = (0xFFFF_FFFF_FFFF_FFFF - v) as u64;
    if complement > 3 {
        assert(encode(complement) == encode_unsigned(complement as nat));
    }
}

/// How a number is read: a first byte below 0x80 is the number, and above that its top bits tell
/// how many bytes follow, and whether the number is a complement.
pub proof fn spellings_are_read(s: Seq<u8>)
    ensures
        s.len() == 0 ==> decode(s) is None,
        s.len() >= 1 && s[0] < 0x80 ==> decode(s) == Some((s[0] as u64, 1nat)),
        s.len() >= 1 && 0x80 <= s[0] < 0xC0 ==> decode(s) == if s.len() >= 2 {
            Some((((s[0] - 0x80) * 0x100 + s[1]) as u64, 2nat))
        } else {
            None
        },
        s.len() >= 1 && 0xC0 <= s[0] < 0xE0 ==> decode(s) == if s.len() >= 3 {
            Some((((s[0] - 0xC0) * 0x1_0000 + s[1] * 0x100 + s[2]) as u64, 3nat))
        } else {
            None
        },
        s.len() >= 1 && 0xE0 <= s[0] < 0xF0 ==> decode(s) == if s.len() >= 4 {
            Some(
                (
                    ((s[0] - 0xE0) * 0x100_0000 + s[1] * 0x1_0000 + s[2] * 0x100 + s[3]) as u64,
                    4nat,
                ),
            )
        } else {
            None
        },
        s.len() >= 1 && 0xF0 <= s[0] < 0xF4 ==> decode(s) == if s.len() >= 5 {
            Some(
                (
                    (s[1] * 0x100_0000 + s[2] * 0x1_0000 + s[3] * 0x100 + s[4]) as u64,
                    5nat,
                ),
            )
        } else {
            None
        },
        s.len() >= 1 && 0xF4 <= s[0] < 0xF8 ==> decode(s) == if s.len() >= 9 {
            Some(
                (
                    (s[1] * 0x100_0000_0000_0000 + s[2] * 0x1_0000_0000_0000 + s[3]
                        * 0x100_0000_0000 + s[4] * 0x1_0000_0000 + s[5] * 0x100_0000 + s[6]
                        * 0x1_0000 + s[7] * 0x100 + s[8]) as u64,
                    9nat,
                ),
            )
        } else {
            None
        },
        s.len() >= 1 && 0xF8 <= s[0] < 0xFC ==> match decode(s.skip(1)) {
            Some((v, n)) => decode(s) == Some(((0xFFFF_FFFF_FFFF_FFFF - v) as u64, n + 1)),
            None => decode(s) is None,
        },
        s.len() >= 1 && s[0] >= 0xFC ==> decode(s) == Some(
            ((0xFFFF_FFFF_FFFF_FFFF - (s[0] - 0xFC)) as u64, 1nat),
        ),
{
    network::be_range_values();
    if s.len() >= 2 {
        network::bytes_spell(s.subrange(1, 2));
    }
    if s.len() >= 3 {
        network::bytes_spell(s.subrange(1, 3));
    }
    if s.len() >= 4 {
        network::bytes_spell(s.subrange(1, 4));
    }
    if s.len() >= 5 {
        network::bytes_spell(s.subrange(1, 5));
    }
    if s.len() >= 9 {
        network::bytes_spell(s.subrange(1, 9));
    }
}

/// What is written to a vector are the bytes of the number, after what was there.
pub proof fn written_to_a_vector(out: &mut Vec<u8>, v: u64, r: Result<usize, cursor::WriteError>)
    requires
        call_ensures(<Vec<u8> as VarintWriter>::write_varint, (out, v), r),
    ensures
        r == Ok::<usize, cursor::WriteError>(encode(v).len() as usize),
        final(out)@ == old(out)@ + encode(v),
        v < 0x80 ==> final(out)@ == old(out)@.push(v as u8),
{
    if v < 0x80 {
        one_byte_numbers(v);
    }
    assert(encode(v).take(encode(v).len() as int) =~= encode(v));
    if v < 0x80 {
        assert(final(out)@ =~= old(out)@.push(v as u8));
    }
}

/// What is read from memory is the number that the bytes at the position spell, and exactly those
/// bytes are passed.
pub proof fn read_from_memory(
    rdr: &mut cursor::Cursor,
    r: Result<u64, cursor::ReadError>,
    v: u64,
    spelling: Seq<u8>,
    rest: Seq<u8>,
)
    requires
        call_ensures(<cursor::Cursor as VarintReader>::read_varint, (rdr,), r),
        decode(spelling) == Some((v, spelling.len())),
        old(rdr).unread() == spelling + rest,
    ensures
        r == Ok::<u64, cursor::ReadError>(v),
        final(rdr).unread() == rest,
        final(rdr).passed() == old(rdr).passed() + spelling,
{
    decode_is_local(spelling, rest);
    assert(spelling.take(spelling.len() as int) =~= spelling);
    assert((spelling + rest).skip(spelling.len() as int) =~= rest);
    assert((spelling + rest).take(spelling.len() as int) =~= spelling);
}

/// Bytes that spell no number are used up, and nothing is read of them.
pub proof fn nothing_is_read_of_short_memory(
    rdr: &mut cursor::Cursor,
    r: Result<u64, cursor::ReadError>,
)
    requires
        call_ensures(<cursor::Cursor as VarintReader>::read_varint, (rdr,), r),
        decode(old(rdr).unread()) is None,
    ensures
        r == Err::<u64, cursor::ReadError>(cursor::ReadError::UnexpectedEof),
        final(rdr).unread().len() == 0,
        final(rdr).passed() == old(rdr).passed() + old(rdr).unread(),
{
}

/// What is written to a buffer that grows are the bytes of the number, over what stood there.
pub proof fn written_to_a_buffer(
    wtr: &mut cursor::Cursor,
    v: u64,
    r: Result<usize, cursor::WriteError>,
)
    requires
        call_ensures(<cursor::Cursor as VarintWriter>::write_varint, (wtr, v), r),
    ensures
        r == Ok::<usize, cursor::WriteError>(encode(v).len() as usize),
        final(wtr).passed() == old(wtr).passed() + encode(v),
{
    assert(encode(v).take(encode(v).len() as int) =~= encode(v));
}

} // verus!
