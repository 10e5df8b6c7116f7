//! The time of day and chance.
//!
//! A pattern tells how a date and time is written: `%Y` stands for the year, `%m`, `%d`, `%H`,
//! `%M` and `%S` for the month, the day, the hour, the minute and the second, and anything else
//! for itself.

use vstd::prelude::*;

verus! {

/// The pattern of a date and time without separators.
pub open spec fn compact() -> Seq<char> {
    "%Y%m%dT%H%M%SZ"@
}

/// The pattern of a date and time that can stand in the name of a file.
pub open spec fn hyphenated() -> Seq<char> {
    "%Y-%m-%d-%H-%M-%S"@
}

/// Whether `c` is a decimal digit.
pub open spec fn is_digit(c: char) -> bool {
    '0' <= c <= '9'
}

/// Whether `s` is a year: four digits or more, with a sign at most in front of them.
pub open spec fn is_year(s: Seq<char>) -> bool {
    &&& s.len() >= 4
    &&& is_digit(s[0]) || s[0] == '+' || s[0] == '-'
    &&& forall|i: int| 0 < i < s.len() ==> is_digit(#[trigger] s[i])
}

/// Whether `c` names a part of a date or time that is written with two digits.
pub open spec fn is_two_digit_part(c: char) -> bool {
    c == 'm' || c == 'd' || c == 'H' || c == 'M' || c == 'S'
}

/// Whether `pattern` is one of the patterns that are told above.
pub open spec fn is_pattern(pattern: Seq<char>) -> bool
    decreases pattern.len(),
{
    if pattern.len() == 0 {
        true
    } else if pattern[0] == '%' {
        pattern.len() >= 2 && (pattern[1] == 'Y' || is_two_digit_part(pattern[1])) && is_pattern(
            pattern.skip(2),
        )
    } else {
        is_pattern(pattern.skip(1))
    }
}

/// Whether `s` is a date and time as `pattern` tells to write it.
pub open spec fn fits(pattern: Seq<char>, s: Seq<char>) -> bool
    decreases pattern.len(),
{
    if pattern.len() == 0 {
        s.len() == 0
    } else if pattern[0] == '%' {
        if pattern.len() >= 2 && pattern[1] == 'Y' {
            exists|n: int|
                0 <= n <= s.len() && is_year(#[trigger] s.take(n)) && fits(
                    pattern.skip(2),
                    s.skip(n),
                )
        } else {
            &&& pattern.len() >= 2
            &&& s.len() >= 2
            &&& is_digit(s[0])
            &&& is_digit(s[1])
            &&& fits(pattern.skip(2), s.skip(2))
        }
    } else {
        &&& s.len() >= 1
        &&& s[0] == pattern[0]
        &&& fits(pattern.skip(1), s.skip(1))
    }
}

/// Calls `chrono::Utc::now` and `chrono::DateTime::timestamp`.
///
/// The result is the number of seconds since 1970, a signed number taken as an unsigned one. It is
/// not negative, since `now` gives no earlier moment. Nothing else is claimed of it: it is what
/// the clock says.
#[verifier::external_body]
pub(crate) fn unix_timestamp() -> (r: u64)
    ensures
        r <= 0x7FFF_FFFF_FFFF_FFFF,
{
    chrono::Utc::now().timestamp() as u64
}

/// Calls `chrono::Utc::now` and `chrono::DateTime::format`.
///
/// The text is a date and time as the pattern tells to write it. Which one is not claimed: it is
/// what the clock says.
#[verifier::external_body]
pub(crate) fn utc_stamp(pattern: &str) -> (r: String)
    requires
        is_pattern(pattern@),
    ensures
        fits(pattern@, r@),
{
    chrono::Utc::now().format(pattern).to_string()
}

/// Calls `chrono::Local::now` and `chrono::DateTime::format`.
///
/// The text is a date and time as the pattern tells to write it. Which one is not claimed: it is
/// what the clock and the time zone say.
#[verifier::external_body]
pub(crate) fn local_stamp(pattern: &str) -> (r: String)
    requires
        is_pattern(pattern@),
    ensures
        fits(pattern@, r@),
{
    chrono::Local::now().format(pattern).to_string()
}

/// Calls `rand::random`.
///
/// Nothing is claimed of the number: any may come.
#[verifier::external_body]
pub(crate) fn random_u16() -> (r: u16) {
    rand::random::<u16>()
}

/// This moment in UTC, without separators.
pub fn compact_now() -> (r: String)
    ensures
        fits(compact(), r@),
{
    proof {
        reveal_strlit("%Y%m%dT%H%M%SZ");
        reveal_with_fuel(is_pattern, 10);
    }
    utc_stamp("%Y%m%dT%H%M%SZ")
}

/// This moment where the machine stands, such that it can stand in the name of a file.
pub fn hyphenated_now() -> (r: String)
    ensures
        fits(hyphenated(), r@),
{
    proof {
        reveal_strlit("%Y-%m-%d-%H-%M-%S");
        reveal_with_fuel(is_pattern, 13);
    }
    local_stamp("%Y-%m-%d-%H-%M-%S")
}

/// A date and time without separators has a `T` eight characters before its end, a `Z` at its end,
/// and otherwise digits, with a sign at most in front.
pub proof fn compact_form(s: Seq<char>)
    requires
        fits(compact(), s),
    ensures
        s.len() >= 16,
        s[s.len() - 8] == 'T',
        s[s.len() - 1] == 'Z',
        is_digit(s[0]) || s[0] == '+' || s[0] == '-',
        forall|i: int|
            0 < i < s.len() - 1 && i != s.len() - 8 ==> is_digit(#[trigger] s[i]),
{
    let p = compact();
    reveal_strlit("%Y%m%dT%H%M%SZ");
    let n = choose|n: int|
        0 <= n <= s.len() && is_year(#[trigger] s.take(n)) && fits(p.skip(2), s.skip(n));
    let t = s.skip(n);
    reveal_with_fuel(fits, 9);
    assert(t.len() == 12);
    assert(t[4] == 'T');
    assert(t[11] == 'Z');
    assert forall|i: int| 0 < i < s.len() - 1 && i != s.len() - 8 implies is_digit(
        #[trigger] s[i],
    ) by {
        if i < n {
            assert(s.take(n)[i] == s[i]);
        } else {
            assert(t[i - n] == s[i]);
        }
    }
    assert(s.take(n)[0] == s[0]);
    assert(s[n + 4] == t[4]);
    assert(s[n + 11] == t[11]);
}

/// A date and time for a file's name holds six numbers with hyphens between them, the first of
/// which is the year.
pub proof fn hyphenated_form(s: Seq<char>)
    requires
        fits(hyphenated(), s),
    ensures
        s.len() >= 19,
        ({
            let n = s.len() - 15;
            &&& is_digit(s[0]) || s[0] == '+' || s[0] == '-'
            &&& forall|i: int| 0 < i < n ==> is_digit(#[trigger] s[i])
            &&& s[n] == '-' && s[n + 3] == '-' && s[n + 6] == '-' && s[n + 9] == '-' && s[n + 12]
                == '-'
            &&& is_digit(s[n + 1]) && is_digit(s[n + 2]) && is_digit(s[n + 4]) && is_digit(s[n + 5])
            &&& is_digit(s[n + 7]) && is_digit(s[n + 8]) && is_digit(s[n + 10])
            &&& is_digit(s[n + 11]) && is_digit(s[n + 13]) && is_digit(s[n + 14])
        }),
{
    let p = hyphenated();
    reveal_strlit("%Y-%m-%d-%H-%M-%S");
    let n = choose|n: int|
        0 <= n <= s.len() && is_year(#[trigger] s.take(n)) && fits(p.skip(2), s.skip(n));
    let t = s.skip(n);
    reveal_with_fuel(fits, 12);
    assert(t.len() == 15);
    assert(s.take(n)[0] == s[0]);
    assert forall|i: int| 0 < i < n implies is_digit(#[trigger] s[i]) by {
        assert(s.take(n)[i] == s[i]);
    }
    assert forall|i: int| 0 <= i < 15 implies #[trigger] t[i] == s[n + i] by {}
    assert(t[0] == '-' && t[3] == '-' && t[6] == '-' && t[9] == '-' && t[12] == '-');
    assert(is_digit(t[1]) && is_digit(t[2]) && is_digit(t[4]) && is_digit(t[5]));
    assert(is_digit(t[7]) && is_digit(t[8]) && is_digit(t[10]) && is_digit(t[11]));
    assert(is_digit(t[13]) && is_digit(t[14]));
}

} // verus!
