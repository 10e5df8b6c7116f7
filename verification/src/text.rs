//! Numbers as text.

use vstd::prelude::*;

verus! {

/// The character of a decimal digit.
pub open spec fn digit(d: nat) -> char {
    (48 + d) as char
}

/// `v` in decimal.
pub open spec fn decimal_of(v: nat) -> Seq<char>
    decreases v,
{
    if v < 10 {
        seq![digit(v)]
    } else {
        decimal_of(v / 10).push(digit(v % 10))
    }
}

/// `v` in decimal, with zeros in front up to the width `width`.
pub open spec fn padded_decimal_of(v: nat, width: nat) -> Seq<char> {
    let s = decimal_of(v);
    if s.len() < width {
        Seq::new((width - s.len()) as nat, |i: int| '0') + s
    } else {
        s
    }
}

/// One decimal digit.
fn digit_text(d: u64) -> (r: &'static str)
    requires
        d < 10,
    ensures
        r@ == seq![digit(d as nat)],
{
    proof {
        reveal_strlit("0");
        reveal_strlit("1");
        reveal_strlit("2");
        reveal_strlit("3");
        reveal_strlit("4");
        reveal_strlit("5");
        reveal_strlit("6");
        reveal_strlit("7");
        reveal_strlit("8");
        reveal_strlit("9");
    }
    let r = if d == 0 {
        "0"
    } else if d == 1 {
        "1"
    } else if d == 2 {
        "2"
    } else if d == 3 {
        "3"
    } else if d == 4 {
        "4"
    } else if d == 5 {
        "5"
    } else if d == 6 {
        "6"
    } else if d == 7 {
        "7"
    } else if d == 8 {
        "8"
    } else {
        "9"
    };
    assert(r@ =~= seq![digit(d as nat)]);
    r
}

/// `v` in decimal.
pub fn decimal(v: u64) -> (r: String)
    ensures
        r@ == decimal_of(v as nat),
    decreases v,
{
    let mut out = if v < 10 {
        String::new()
    } else {
        decimal(v / 10)
    };
    out.append(digit_text(v % 10));
    assert(out@ =~= decimal_of(v as nat));
    out
}

/// `v` in decimal, with zeros in front up to the width `width`.
pub fn padded_decimal(v: u64, width: usize) -> (r: String)
    ensures
        r@ == padded_decimal_of(v as nat, width as nat),
{
    let digits = decimal(v);
    let len = digits.as_str().unicode_len();
    let mut out = String::new();
    let mut i: usize = len;
    proof {
        reveal_strlit("0");
        assert("0"@ =~= seq!['0']);
    }
    while i < width
        invariant
            "0"@ == seq!['0'],
            len <= i,
            len >= width ==> i == len,
            len < width ==> i <= width,
            out@ == Seq::new((i - len) as nat, |k: int| '0'),
        decreases width - i,
    {
        out.append("0");
        i = i + 1;
        assert(out@ =~= Seq::new((i - len) as nat, |k: int| '0'));
    }
    out.append(digits.as_str());
    assert(out@ =~= padded_decimal_of(v as nat, width as nat));
    out
}

/// A number in decimal ends in its last digit and starts with the number that is left without it;
/// below ten it is its one digit. A digit is the character that stands as many places after `0`.
pub proof fn digits_follow_each_other(v: u64, r: String, front: String)
    requires
        call_ensures(decimal, (v,), r),
        v >= 10 ==> call_ensures(decimal, (v / 10,), front),
    ensures
        v < 10 ==> r@.len() == 1,
        v >= 10 ==> r@.len() > 1 && r@.drop_last() == front@,
        r@.last() as int == 48 + v % 10,
{
    if v >= 10 {
        assert(r@.drop_last() =~= front@);
        assert(decimal_of(v as nat / 10).len() > 0) by {
            lemma_decimal_nonempty(v as nat / 10);
        }
    }
}

/// There is always a digit.
proof fn lemma_decimal_nonempty(v: nat)
    ensures
        decimal_of(v).len() > 0,
{
}

/// A number is padded with zeros in front, and only as far as its digits do not fill the width.
pub proof fn zeros_come_in_front(v: u64, width: usize, r: String, digits: String, i: int)
    requires
        call_ensures(padded_decimal, (v, width), r),
        call_ensures(decimal, (v,), digits),
    ensures
        digits@.len() >= width ==> r@ == digits@,
        digits@.len() < width ==> r@.len() == width && r@.skip(width - digits@.len()) == digits@,
        0 <= i < width - digits@.len() ==> r@[i] == '0',
{
    if digits@.len() < width {
        assert(r@.skip(width - digits@.len()) =~= digits@);
    }
}

} // verus!
