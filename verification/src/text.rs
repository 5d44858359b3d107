//! Comparing and parsing text: the equality the command tables are looked up
//! by, and the integer parsing `str::parse` does.

use vstd::prelude::*;

verus! {

/// Whether two strings hold the same characters.
pub fn same_text(a: &str, b: &str) -> (r: bool)
    ensures
        r == (a@ == b@),
{
    let n = a.unicode_len();
    if n != b.unicode_len() {
        return false;
    }
    let mut i: usize = 0;
    while i < n
        invariant
            n == a@.len(),
            n == b@.len(),
            0 <= i <= n,
            forall|k: int| 0 <= k < i ==> a@[k] == b@[k],
        decreases n - i,
    {
        if a.get_char(i) != b.get_char(i) {
            return false;
        }
        i = i + 1;
    }
    assert(a@ =~= b@);
    true
}

/// Whether `c` is an ASCII decimal digit.
pub open spec fn is_digit(c: char) -> bool {
    '0' <= c <= '9'
}

/// The value of a string of ASCII decimal digits.
pub open spec fn decimal_value(digits: Seq<char>) -> int
    decreases digits.len(),
{
    if digits.len() == 0 {
        0
    } else {
        decimal_value(digits.drop_last()) * 10 + (digits.last() as int - '0' as int)
    }
}

/// The digits of an unsigned integer as `str::parse` reads them: an optional
/// `+` sign, then one or more ASCII decimal digits and nothing else.
pub open spec fn unsigned_digits(s: Seq<char>) -> Option<Seq<char>> {
    let d = if s.len() > 0 && s[0] == '+' {
        s.drop_first()
    } else {
        s
    };
    if d.len() > 0 && forall|i: int| 0 <= i < d.len() ==> is_digit(#[trigger] d[i]) {
        Some(d)
    } else {
        None
    }
}

/// The `u64` that `s` spells, as `str::parse` reads one: `None` for anything
/// that is not an unsigned decimal, or one too large for a `u64`.
pub open spec fn parsed_u64(s: Seq<char>) -> Option<u64> {
    match unsigned_digits(s) {
        Some(d) => if decimal_value(d) <= u64::MAX {
            Some(decimal_value(d) as u64)
        } else {
            None
        },
        None => None,
    }
}

/// The `u32` that `s` spells, as `str::parse` reads one.
pub open spec fn parsed_u32(s: Seq<char>) -> Option<u32> {
    match unsigned_digits(s) {
        Some(d) => if decimal_value(d) <= u32::MAX {
            Some(decimal_value(d) as u32)
        } else {
            None
        },
        None => None,
    }
}

/// What `str::parse::<u64>` says of a string it cannot read as a `u64`,
/// as its error displays itself.
pub uninterp spec fn u64_parse_error_text(s: Seq<char>) -> Seq<char>;

/// `str::parse::<u64>`: the unsigned decimal `s` spells, or the displayed
/// error when it spells none (an empty string, a character that is not a
/// digit, or a value past `u64::MAX`). Its documentation gives the accepted
/// form: an optional `+` followed by digits only.
#[verifier::external_body]
pub(crate) fn parse_u64(s: &str) -> (r: Result<u64, String>)
    ensures
        match r {
            Ok(v) => parsed_u64(s@) == Some(v),
            Err(e) => parsed_u64(s@) is None && e@ == u64_parse_error_text(s@),
        },
{
    s.parse::<u64>().map_err(|e| e.to_string())
}

/// `str::parse::<u32>`: the unsigned decimal `s` spells, if it spells one
/// that fits a `u32`; the error itself is not kept.
#[verifier::external_body]
pub(crate) fn parse_u32(s: &str) -> (r: Option<u32>)
    ensures
        r == parsed_u32(s@),
{
    s.parse::<u32>().ok()
}

/// Whether `c` is an ASCII hexadecimal digit.
pub open spec fn is_hex_digit(c: char) -> bool {
    ('0' <= c <= '9') || ('a' <= c <= 'f') || ('A' <= c <= 'F')
}

/// The value of one hexadecimal digit.
pub open spec fn hex_digit_value(c: char) -> int {
    if '0' <= c <= '9' {
        c as int - '0' as int
    } else if 'a' <= c <= 'f' {
        c as int - 'a' as int + 10
    } else {
        c as int - 'A' as int + 10
    }
}

/// The value of a string of hexadecimal digits.
pub open spec fn hex_value(digits: Seq<char>) -> int
    decreases digits.len(),
{
    if digits.len() == 0 {
        0
    } else {
        hex_value(digits.drop_last()) * 16 + hex_digit_value(digits.last())
    }
}

/// The `u8` that `s` spells in hexadecimal, as `u8::from_str_radix` reads
/// one: an optional `+` then one or more hex digits, fitting a `u8`.
pub open spec fn parsed_hex_u8(s: Seq<char>) -> Option<u8> {
    let d = if s.len() > 0 && s[0] == '+' {
        s.drop_first()
    } else {
        s
    };
    if d.len() > 0 && (forall|i: int| 0 <= i < d.len() ==> is_hex_digit(#[trigger] d[i]))
        && hex_value(d) <= u8::MAX {
        Some(hex_value(d) as u8)
    } else {
        None
    }
}

/// `u8::from_str_radix(s, 16)`: the byte `s` spells in hexadecimal, if it
/// spells one; the error itself is not kept.
#[verifier::external_body]
pub(crate) fn parse_hex_u8(s: &str) -> (r: Option<u8>)
    ensures
        r == parsed_hex_u8(s@),
{
    u8::from_str_radix(s, 16).ok()
}

/// Whether `needle` occurs in `hay` starting at position `at`.
pub open spec fn occurs_at(hay: Seq<char>, needle: Seq<char>, at: int) -> bool {
    0 <= at && at + needle.len() <= hay.len() && hay.subrange(at, at + needle.len()) == needle
}

/// Whether `needle` occurs anywhere in `hay`.
pub open spec fn contains_seq(hay: Seq<char>, needle: Seq<char>) -> bool {
    exists|at: int| occurs_at(hay, needle, at)
}

/// Whether `needle` occurs in `hay`.
pub fn contains_text(hay: &str, needle: &str) -> (r: bool)
    ensures
        r == contains_seq(hay@, needle@),
{
    let n = hay.unicode_len();
    let m = needle.unicode_len();
    if m > n {
        assert forall|at: int| !occurs_at(hay@, needle@, at) by {}
        return false;
    }
    if m == 0 {
        assert(occurs_at(hay@, needle@, 0)) by {
            assert(hay@.subrange(0, 0) =~= needle@);
        }
        return true;
    }
    let mut at: usize = 0;
    while at <= n - m
        invariant
            n == hay@.len(),
            m == needle@.len(),
            1 <= m <= n,
            0 <= at <= n - m + 1,
            forall|k: int| 0 <= k < at ==> !occurs_at(hay@, needle@, k),
        decreases n - m + 1 - at,
    {
        let mut j: usize = 0;
        let mut matched = true;
        while j < m
            invariant
                n == hay@.len(),
                m == needle@.len(),
                at + m <= n,
                0 <= j <= m,
                matched ==> forall|k: int| 0 <= k < j ==> hay@[at + k] == needle@[k],
                !matched ==> !occurs_at(hay@, needle@, at as int),
            decreases m - j,
        {
            if matched && hay.get_char(at + j) != needle.get_char(j) {
                matched = false;
                assert(hay@.subrange(at as int, at + m)[j as int] != needle@[j as int]);
            }
            j = j + 1;
        }
        if matched {
            assert(hay@.subrange(at as int, at + m) =~= needle@);
            assert(occurs_at(hay@, needle@, at as int));
            return true;
        }
        at = at + 1;
    }
    assert forall|k: int| !occurs_at(hay@, needle@, k) by {
        if 0 <= k && k + m <= n {
            assert(k < at);
        }
    }
    false
}

} // verus!
