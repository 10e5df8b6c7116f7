//! Sound as bytes and as samples, and its division into pieces.
//!
//! A sample is a signed 16-bit number, and travels as two bytes, the low-order one first.

use byteorder::{LittleEndian, ReadBytesExt, WriteBytesExt};
use vstd::prelude::*;

verus! {

/// The two bytes of a sample.
pub open spec fn sample_bytes(x: i16) -> Seq<u8> {
    let u = if x >= 0 {
        x as int
    } else {
        x + 0x1_0000
    };
    seq![(u % 256) as u8, (u / 256) as u8]
}

/// The sample of two bytes.
pub open spec fn sample_of(low: u8, high: u8) -> i16 {
    let u = low + 256 * high;
    if u < 0x8000 {
        u as i16
    } else {
        (u - 0x1_0000) as i16
    }
}

/// The samples of `s`. A byte without a partner is left out.
pub open spec fn samples_of(s: Seq<u8>) -> Seq<i16> {
    Seq::new(s.len() / 2, |i: int| sample_of(s[2 * i], s[2 * i + 1]))
}

/// The bytes of `x`.
pub open spec fn bytes_of(x: Seq<i16>) -> Seq<u8> {
    Seq::new(2 * x.len(), |i: int| sample_bytes(x[i / 2])[i % 2])
}

/// The views of a sequence of vectors.
pub open spec fn views<T>(v: Seq<Vec<T>>) -> Seq<Seq<T>> {
    v.map_values(|c: Vec<T>| c@)
}

/// `s` in pieces of `n`, the last of which may be shorter.
pub open spec fn chunks_of<T>(s: Seq<T>, n: nat) -> Seq<Seq<T>>
    decreases s.len(),
{
    if s.len() == 0 || n == 0 {
        Seq::empty()
    } else if s.len() <= n {
        seq![s]
    } else {
        seq![s.take(n as int)] + chunks_of(s.skip(n as int), n)
    }
}

/// Calls `byteorder::ReadBytesExt::read_i16` for `LittleEndian`.
///
/// It reads the first two bytes as a sample; it fails only where there are fewer.
#[verifier::external_body]
fn read_i16(bytes: &[u8]) -> (r: i16)
    requires
        bytes@.len() >= 2,
    ensures
        r == sample_of(bytes@[0], bytes@[1]),
{
    let mut rdr = bytes;
    rdr.read_i16::<LittleEndian>().unwrap()
}

/// Calls `byteorder::WriteBytesExt::write_i16` for `LittleEndian`.
///
/// It appends the two bytes of a sample; writing to a vector does not fail.
#[verifier::external_body]
fn write_i16(out: &mut Vec<u8>, x: i16)
    ensures
        final(out)@ == old(out)@ + sample_bytes(x),
{
    out.write_i16::<LittleEndian>(x).unwrap()
}

/// The samples of `bytes`. A byte without a partner is left out.
pub fn to_samples(bytes: &[u8]) -> (r: Vec<i16>)
    ensures
        r@ == samples_of(bytes@),
{
    let mut out: Vec<i16> = Vec::new();
    let mut i: usize = 0;
    while bytes.len() - i >= 2
        invariant
            i <= bytes@.len(),
            i == 2 * out@.len(),
            forall|k: int|
                0 <= k < out@.len() ==> out@[k] == sample_of(bytes@[2 * k], bytes@[2 * k + 1]),
        decreases bytes@.len() - i,
    {
        let pair = vstd::slice::slice_subrange(bytes, i, i + 2);
        out.push(read_i16(pair));
        i = i + 2;
    }
    assert(out@ =~= samples_of(bytes@));
    out
}

/// The bytes of the first `size` samples.
pub fn to_bytes(samples: &[i16], size: usize) -> (r: Vec<u8>)
    requires
        size <= samples@.len(),
    ensures
        r@ == bytes_of(samples@.take(size as int)),
{
    let mut out: Vec<u8> = Vec::new();
    let mut i: usize = 0;
    while i < size
        invariant
            i <= size <= samples@.len(),
            out@ =~= bytes_of(samples@.take(i as int)),
        decreases size - i,
    {
        write_i16(&mut out, samples[i]);
        assert(samples@.take(i + 1).take(i as int) =~= samples@.take(i as int));
        i = i + 1;
    }
    out
}

/// `s` in pieces of `n`, the last of which may be shorter.
pub fn to_chunks<T: Copy>(s: &[T], n: usize) -> (r: Vec<Vec<T>>)
    requires
        n > 0,
    ensures
        views(r@) == chunks_of(s@, n as nat),
{
    let mut out: Vec<Vec<T>> = Vec::new();
    let mut i: usize = 0;
    proof {
        assert(s@.skip(0) =~= s@);
        assert(views(out@) + chunks_of(s@, n as nat) =~= chunks_of(s@, n as nat));
    }
    while i < s.len()
        invariant
            i <= s@.len(),
            n > 0,
            views(out@) + chunks_of(s@.skip(i as int), n as nat) == chunks_of(s@, n as nat),
        decreases s@.len() - i,
    {
        let end = if s.len() - i <= n {
            s.len()
        } else {
            i + n
        };
        let chunk = vstd::slice::slice_to_vec(vstd::slice::slice_subrange(s, i, end));
        let ghost before = out@;
        let ghost rest = s@.skip(i as int);
        out.push(chunk);
        proof {
            assert(views(out@) =~= views(before).push(chunk@));
            assert(rest.skip(end - i) =~= s@.skip(end as int));
            assert(chunk@ =~= rest.take(end - i));
            if end == s@.len() {
                assert(rest.take(end - i) =~= rest);
                assert(chunks_of(s@.skip(end as int), n as nat) =~= Seq::<Seq<T>>::empty());
            }
            assert(views(out@) + chunks_of(s@.skip(end as int), n as nat) =~= views(before)
                + chunks_of(rest, n as nat));
        }
        i = end;
    }
    assert(chunks_of(s@.skip(i as int), n as nat) =~= Seq::<Seq<T>>::empty());
    assert(views(out@) =~= chunks_of(s@, n as nat));
    out
}

/// Samples survive the way to bytes and back.
pub proof fn samples_round_trip(x: Seq<i16>)
    ensures
        samples_of(bytes_of(x)) == x,
{
    assert(samples_of(bytes_of(x)) =~= x);
}

/// Bytes survive the way to samples and back, unless one has no partner.
pub proof fn bytes_round_trip(s: Seq<u8>)
    requires
        s.len() % 2 == 0,
    ensures
        bytes_of(samples_of(s)) == s,
{
    assert forall|i: int| 0 <= i < s.len() implies bytes_of(samples_of(s))[i] == s[i] by {
        assert(i == 2 * (i / 2) + i % 2);
    }
    assert(bytes_of(samples_of(s)) =~= s);
}

/// Put one after the other, the pieces give the whole back.
pub proof fn chunks_join<T>(s: Seq<T>, n: nat)
    requires
        n > 0,
    ensures
        chunks_of(s, n).flatten() == s,
    decreases s.len(),
{
    let c = chunks_of(s, n);
    if s.len() == 0 {
        assert(c.flatten() =~= s);
    } else if s.len() <= n {
        assert(c.drop_first().flatten() =~= Seq::<T>::empty());
        assert(c.flatten() =~= s);
    } else {
        chunks_join(s.skip(n as int), n);
        assert(c.drop_first() =~= chunks_of(s.skip(n as int), n));
        assert(c.flatten() =~= s.take(n as int) + s.skip(n as int));
        assert(c.flatten() =~= s);
    }
}

/// Every two bytes are a sample: the low-order byte and then the high-order one, the top bit of
/// which is the sign. A last byte without a partner is no sample.
pub proof fn two_bytes_are_a_sample(bytes: &[u8], r: Vec<i16>, i: int)
    requires
        call_ensures(to_samples, (bytes,), r),
    ensures
        r@.len() == bytes@.len() / 2,
        0 <= i < r@.len() && bytes@[2 * i + 1] < 0x80 ==> r@[i] == bytes@[2 * i] + 0x100 * bytes@[2
            * i + 1],
        0 <= i < r@.len() && bytes@[2 * i + 1] >= 0x80 ==> r@[i] == bytes@[2 * i] + 0x100 * bytes@[2
            * i + 1] - 0x1_0000,
{
}

/// Every sample is two bytes, of which it is made up.
pub proof fn a_sample_is_two_bytes(samples: &[i16], size: usize, r: Vec<u8>, i: int)
    requires
        size <= samples@.len(),
        call_ensures(to_bytes, (samples, size), r),
    ensures
        r@.len() == 2 * size,
        0 <= i < size && samples@[i] >= 0 ==> r@[2 * i] + 0x100 * r@[2 * i + 1] == samples@[i],
        0 <= i < size && samples@[i] < 0 ==> r@[2 * i] + 0x100 * r@[2 * i + 1] == samples@[i]
            + 0x1_0000,
{
    if 0 <= i < size {
        assert((2 * i) / 2 == i && (2 * i) % 2 == 0);
        assert((2 * i + 1) / 2 == i && (2 * i + 1) % 2 == 1);
    }
}

/// The piece `i` of `s` starts after `i` whole pieces.
pub proof fn lemma_piece_at<T>(s: Seq<T>, n: nat, i: int)
    requires
        n > 0,
        0 <= i,
        i * n < s.len(),
    ensures
        i < chunks_of(s, n).len(),
        chunks_of(s, n)[i] == s.subrange(
            i * n,
            if (i + 1) * n <= s.len() {
                (i + 1) * n
            } else {
                s.len() as int
            },
        ),
    decreases s.len(),
{
    assert((i + 1) * n == i * n + n) by (nonlinear_arith);
    if s.len() <= n {
        if i > 0 {
            assert(i * n >= n) by (nonlinear_arith)
                requires
                    i >= 1,
            ;
        }
        assert(i == 0);
        assert(0 * n == 0);
        assert(s.subrange(0, s.len() as int) =~= s);
    } else {
        let t = s.skip(n as int);
        if i == 0 {
            assert(0 * n == 0);
            assert(s.subrange(0, n as int) =~= s.take(n as int));
        } else {
            assert((i - 1) * n == i * n - n) by (nonlinear_arith);
            assert((i - 1 + 1) * n == i * n);
            lemma_piece_at(t, n, i - 1);
            let end = if i * n <= t.len() {
                i * n
            } else {
                t.len() as int
            };
            assert(t.subrange((i - 1) * n, end) =~= s.subrange(i * n, end + n));
            assert(chunks_of(s, n)[i] == chunks_of(t, n)[i - 1]);
        }
    }
}

/// There are as many pieces as it takes.
pub proof fn lemma_piece_count<T>(s: Seq<T>, n: nat)
    requires
        n > 0,
    ensures
        s.len() <= chunks_of(s, n).len() * n < s.len() + n,
    decreases s.len(),
{
    let k = chunks_of(s, n).len();
    if s.len() == 0 {
        assert(0 * n == 0);
    } else if s.len() <= n {
        assert(1 * n == n);
    } else {
        lemma_piece_count(s.skip(n as int), n);
        let m = chunks_of(s.skip(n as int), n).len();
        assert(k == m + 1);
        assert((m + 1) * n == m * n + n) by (nonlinear_arith);
    }
}

/// Every piece but the last has exactly `n` elements, the last has at least one and no more than
/// that, and the pieces follow each other: the piece `i` holds the elements from `i * n` on.
pub proof fn pieces_are_cut_to_length<T: Copy>(s: &[T], n: usize, r: Vec<Vec<T>>, i: int)
    requires
        n > 0,
        call_ensures(to_chunks::<T>, (s, n), r),
    ensures
        s@.len() <= r@.len() * n < s@.len() + n,
        0 <= i < r@.len() - 1 ==> r@[i]@.len() == n,
        0 <= i == r@.len() - 1 ==> 1 <= r@[i]@.len() <= n,
        0 <= i < r@.len() ==> r@[i]@ == s@.subrange(i * n, i * n + r@[i]@.len()),
{
    lemma_piece_count(s@, n as nat);
    assert(views(r@).len() == r@.len());
    if 0 <= i < r@.len() {
        let k = r@.len() as int;
        assert(i * n <= (k - 1) * n) by (nonlinear_arith)
            requires
                i <= k - 1,
        ;
        assert((k - 1) * n == k * n - n) by (nonlinear_arith);
        lemma_piece_at(s@, n as nat, i);
        assert(views(r@)[i] == r@[i]@);
        assert((i + 1) * n == i * n + n) by (nonlinear_arith);
        if i < k - 1 {
            assert((i + 1) * n <= (k - 1) * n) by (nonlinear_arith)
                requires
                    i + 1 <= k - 1,
            ;
        }
    }
}

/// The views of vectors are what they hold, one for one.
pub proof fn views_are_contents<T>(v: Seq<Vec<T>>, i: int)
    ensures
        views(v).len() == v.len(),
        0 <= i < v.len() ==> views(v)[i] == v[i]@,
{
}

} // verus!
