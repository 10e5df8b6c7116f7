//! Fixed-width integers in network order.

use byteorder::{BigEndian, ReadBytesExt, WriteBytesExt};
use vstd::prelude::*;

verus! {

/// The number that `s` spells in base 256, most significant byte first.
pub open spec fn be_value(s: Seq<u8>) -> nat
    decreases s.len(),
{
    if s.len() == 0 {
        0
    } else {
        be_value(s.drop_last()) * 256 + s.last() as nat
    }
}

/// The `n` low-order base-256 digits of `v`, most significant first.
pub open spec fn be_bytes(v: nat, n: nat) -> Seq<u8>
    decreases n,
{
    if n == 0 {
        Seq::empty()
    } else {
        be_bytes(v / 256, (n - 1) as nat).push((v % 256) as u8)
    }
}

/// `256^n`: how many numbers `n` bytes can spell.
pub open spec fn be_range(n: nat) -> nat
    decreases n,
{
    if n == 0 {
        1
    } else {
        be_range((n - 1) as nat) * 256
    }
}

/// `be_bytes` has the length it is asked for.
pub proof fn lemma_be_bytes_len(v: nat, n: nat)
    ensures
        be_bytes(v, n).len() == n,
    decreases n,
{
    if n > 0 {
        lemma_be_bytes_len(v / 256, (n - 1) as nat);
    }
}

/// Bytes written in network order spell the number that was written.
pub proof fn be_round_trip(v: nat, n: nat)
    requires
        v < be_range(n),
    ensures
        be_bytes(v, n).len() == n,
        be_value(be_bytes(v, n)) == v,
    decreases n,
{
    lemma_be_bytes_len(v, n);
    if n > 0 {
        be_round_trip(v / 256, (n - 1) as nat);
        assert(be_bytes(v, n).drop_last() =~= be_bytes(v / 256, (n - 1) as nat));
    }
}

/// The number that bytes in network order spell is written back as those bytes.
pub proof fn be_value_round_trip(s: Seq<u8>)
    ensures
        be_value(s) < be_range(s.len()),
        be_bytes(be_value(s), s.len()) == s,
    decreases s.len(),
{
    if s.len() > 0 {
        be_value_round_trip(s.drop_last());
        let high = be_value(s.drop_last());
        assert((high * 256 + s.last() as nat) / 256 == high);
        assert((high * 256 + s.last() as nat) % 256 == s.last());
        assert(s.drop_last().push(s.last()) =~= s);
    } else {
        assert(be_bytes(0, 0) =~= s);
    }
}

/// The ranges that occur on the wire.
pub proof fn be_range_values()
    ensures
        be_range(0) == 1,
        be_range(1) == 0x100,
        be_range(2) == 0x1_0000,
        be_range(3) == 0x100_0000,
        be_range(4) == 0x1_0000_0000,
        be_range(8) == 0x1_0000_0000_0000_0000,
{
    reveal_with_fuel(be_range, 9);
}

/// More bytes spell at least as many numbers.
pub proof fn lemma_be_range_monotonic(m: nat, n: nat)
    requires
        m <= n,
    ensures
        0 < be_range(m) <= be_range(n),
    decreases n,
{
    if m < n {
        lemma_be_range_monotonic(m, (n - 1) as nat);
    } else if n > 0 {
        lemma_be_range_monotonic((n - 1) as nat, (n - 1) as nat);
    }
}

/// The most significant byte comes first.
pub proof fn lemma_be_head(head: nat, low: nat, n: nat)
    requires
        head < 256,
        low < be_range(n),
    ensures
        be_bytes(head * be_range(n) + low, n + 1) == seq![head as u8] + be_bytes(low, n),
    decreases n,
{
    let v = head * be_range(n) + low;
    if n == 0 {
        assert(head * 1 == head);
        assert(be_bytes(v / 256, 0) =~= Seq::<u8>::empty());
        assert(be_bytes(v, 1) =~= seq![head as u8] + be_bytes(low, 0));
    } else {
        let range = be_range((n - 1) as nat);
        assert(head * (range * 256) == (head * range) * 256) by (nonlinear_arith);
        assert(v / 256 == head * range + low / 256);
        assert(v % 256 == low % 256);
        lemma_be_head(head, low / 256, (n - 1) as nat);
        assert(be_bytes(v, n + 1) =~= seq![head as u8] + be_bytes(low, n));
    }
}

/// Appends the `n` low-order bytes of `v` in network order.
pub fn push_be(out: &mut Vec<u8>, v: u64, n: u8)
    ensures
        final(out)@ == old(out)@ + be_bytes(v as nat, n as nat),
    decreases n,
{
    if n > 0 {
        push_be(out, v / 256, n - 1);
        out.push((v % 256) as u8);
    }
    assert(out@ =~= old(out)@ + be_bytes(v as nat, n as nat));
}

/// Calls `byteorder::ReadBytesExt::read_u16` for `BigEndian`.
///
/// It reads the first two bytes as a number in network order; it fails only where there are fewer.
#[verifier::external_body]
pub(crate) fn read_u16(bytes: &[u8]) -> (r: u16)
    requires
        bytes@.len() >= 2,
    ensures
        r == be_value(bytes@.take(2)),
{
    let mut rdr = bytes;
    rdr.read_u16::<BigEndian>().unwrap()
}

/// Calls `byteorder::ReadBytesExt::read_u32` for `BigEndian`.
///
/// It reads the first four bytes as a number in network order; it fails only where there are
/// fewer.
#[verifier::external_body]
pub(crate) fn read_u32(bytes: &[u8]) -> (r: u32)
    requires
        bytes@.len() >= 4,
    ensures
        r == be_value(bytes@.take(4)),
{
    let mut rdr = bytes;
    rdr.read_u32::<BigEndian>().unwrap()
}

/// Calls `byteorder::WriteBytesExt::write_u16` for `BigEndian`.
///
/// It appends the two bytes of the number in network order; writing to a vector does not fail.
#[verifier::external_body]
pub(crate) fn write_u16(out: &mut Vec<u8>, v: u16)
    ensures
        final(out)@ == old(out)@ + be_bytes(v as nat, 2),
{
    out.write_u16::<BigEndian>(v).unwrap()
}

/// Calls `byteorder::WriteBytesExt::write_u32` for `BigEndian`.
///
/// It appends the four bytes of the number in network order; writing to a vector does not fail.
#[verifier::external_body]
pub(crate) fn write_u32(out: &mut Vec<u8>, v: u32)
    ensures
        final(out)@ == old(out)@ + be_bytes(v as nat, 4),
{
    out.write_u32::<BigEndian>(v).unwrap()
}

/// What one, two, three, four and eight bytes in network order spell.
pub proof fn bytes_spell(s: Seq<u8>)
    ensures
        s.len() == 0 ==> be_value(s) == 0,
        s.len() == 1 ==> be_value(s) == s[0],
        s.len() == 2 ==> be_value(s) == 0x100 * s[0] + s[1],
        s.len() == 3 ==> be_value(s) == 0x1_0000 * s[0] + 0x100 * s[1] + s[2],
        s.len() == 4 ==> be_value(s) == 0x100_0000 * s[0] + 0x1_0000 * s[1] + 0x100 * s[2] + s[3],
        s.len() == 8 ==> be_value(s) == 0x100_0000_0000_0000 * s[0] + 0x1_0000_0000_0000 * s[1]
            + 0x100_0000_0000 * s[2] + 0x1_0000_0000 * s[3] + 0x100_0000 * s[4] + 0x1_0000 * s[5]
            + 0x100 * s[6] + s[7],
{
    reveal_with_fuel(be_value, 9);
}

/// The bytes that spell a number: each holds eight bits of it, the high-order ones first.
pub proof fn number_is_spelled(v: nat, n: nat, i: int)
    requires
        0 <= i < n <= 8,
    ensures
        be_bytes(v, n).len() == n,
        i == n - 1 ==> be_bytes(v, n)[i] == v % 0x100,
        i == n - 2 ==> be_bytes(v, n)[i] == v / 0x100 % 0x100,
        i == n - 3 ==> be_bytes(v, n)[i] == v / 0x1_0000 % 0x100,
        i == n - 4 ==> be_bytes(v, n)[i] == v / 0x100_0000 % 0x100,
        i == n - 5 ==> be_bytes(v, n)[i] == v / 0x1_0000_0000 % 0x100,
        i == n - 6 ==> be_bytes(v, n)[i] == v / 0x100_0000_0000 % 0x100,
        i == n - 7 ==> be_bytes(v, n)[i] == v / 0x1_0000_0000_0000 % 0x100,
        i == n - 8 ==> be_bytes(v, n)[i] == v / 0x100_0000_0000_0000 % 0x100,
{
    lemma_be_bytes_len(v, n);
    lemma_be_bytes_at(v, n, i);
    reveal_with_fuel(be_range, 9);
}

/// The byte of a place holds the digit of that place.
proof fn lemma_be_bytes_at(v: nat, n: nat, i: int)
    requires
        0 <= i < n,
    ensures
        be_bytes(v, n).len() == n,
        be_range((n - 1 - i) as nat) > 0,
        be_bytes(v, n)[i] == v / be_range((n - 1 - i) as nat) % 256,
    decreases n,
{
    lemma_be_bytes_len(v, n);
    lemma_be_range_monotonic((n - 1 - i) as nat, (n - 1 - i) as nat);
    if i < n - 1 {
        let range = be_range((n - 2 - i) as nat);
        lemma_be_bytes_len(v / 256, (n - 1) as nat);
        lemma_be_bytes_at(v / 256, (n - 1) as nat, i);
        vstd::arithmetic::div_mod::lemma_div_denominator(v as int, 256, range as int);
        assert(256 * range == range * 256) by (nonlinear_arith);
    } else {
        assert(v / 1 == v);
    }
}

/// What is appended are the bytes of the number, the high-order ones first, and nothing else.
pub proof fn appended_in_network_order(out: &mut Vec<u8>, v: u64, n: u8, r: (), i: int)
    requires
        0 <= i < n <= 8,
        call_ensures(push_be, (out, v, n), r),
    ensures
        final(out)@.len() == old(out)@.len() + n,
        final(out)@.take(old(out)@.len() as int) == old(out)@,
        i == n - 1 ==> final(out)@[old(out)@.len() + i] == v % 0x100,
        i == n - 2 ==> final(out)@[old(out)@.len() + i] == v / 0x100 % 0x100,
        i == n - 3 ==> final(out)@[old(out)@.len() + i] == v / 0x1_0000 % 0x100,
        i == n - 4 ==> final(out)@[old(out)@.len() + i] == v / 0x100_0000 % 0x100,
        i == n - 5 ==> final(out)@[old(out)@.len() + i] == v / 0x1_0000_0000 % 0x100,
        i == n - 6 ==> final(out)@[old(out)@.len() + i] == v / 0x100_0000_0000 % 0x100,
        i == n - 7 ==> final(out)@[old(out)@.len() + i] == v / 0x1_0000_0000_0000 % 0x100,
        i == n - 8 ==> final(out)@[old(out)@.len() + i] == v / 0x100_0000_0000_0000 % 0x100,
{
    number_is_spelled(v as nat, n as nat, i);
    assert(final(out)@.take(old(out)@.len() as int) =~= old(out)@);
}

/// The bytes of two, three, four and eight places, one by one.
pub proof fn spelled_out(v: nat)
    ensures
        be_bytes(v, 1) == seq![(v % 0x100) as u8],
        be_bytes(v, 2) == seq![(v / 0x100 % 0x100) as u8, (v % 0x100) as u8],
        be_bytes(v, 3) == seq![
            (v / 0x1_0000 % 0x100) as u8,
            (v / 0x100 % 0x100) as u8,
            (v % 0x100) as u8,
        ],
        be_bytes(v, 4) == seq![
            (v / 0x100_0000 % 0x100) as u8,
            (v / 0x1_0000 % 0x100) as u8,
            (v / 0x100 % 0x100) as u8,
            (v % 0x100) as u8,
        ],
        be_bytes(v, 8) == seq![
            (v / 0x100_0000_0000_0000 % 0x100) as u8,
            (v / 0x1_0000_0000_0000 % 0x100) as u8,
            (v / 0x100_0000_0000 % 0x100) as u8,
            (v / 0x1_0000_0000 % 0x100) as u8,
            (v / 0x100_0000 % 0x100) as u8,
            (v / 0x1_0000 % 0x100) as u8,
            (v / 0x100 % 0x100) as u8,
            (v % 0x100) as u8,
        ],
{
    assert forall|n: nat, i: int| 0 <= i < n <= 8 implies #[trigger] be_bytes(v, n)[i] == v
        / be_range((n - 1 - i) as nat) % 256 by {
        lemma_be_bytes_at(v, n, i);
    }
    lemma_be_bytes_len(v, 1);
    lemma_be_bytes_len(v, 2);
    lemma_be_bytes_len(v, 3);
    lemma_be_bytes_len(v, 4);
    lemma_be_bytes_len(v, 8);
    reveal_with_fuel(be_range, 9);
    assert(v / 1 == v);
}

} // verus!
