//! Reading which band of which file is meant from text such as
//! `parent/file.tif:2`.

use vstd::prelude::*;
use vstd::string::*;

verus! {

/// True for the ten decimal digits.
pub open spec fn is_digit(c: char) -> bool {
    48 <= c as u32 && c as u32 <= 57
}

/// What a digit counts for; 0 for any other character.
pub open spec fn digit_value(c: char) -> nat {
    if is_digit(c) {
        (c as u32 - 48) as nat
    } else {
        0
    }
}

/// True if a text holds decimal digits only.
pub open spec fn all_digits(s: Seq<char>) -> bool {
    forall|i: int| 0 <= i < s.len() ==> is_digit(#[trigger] s[i])
}

/// The number that a text of decimal digits writes.
pub open spec fn decimal_value(s: Seq<char>) -> nat
    decreases s.len(),
{
    if s.len() == 0 {
        0
    } else {
        decimal_value(s.drop_last()) * 10 + digit_value(s.last())
    }
}

/// True if a text starts with a plus or a minus sign.
pub open spec fn has_sign(s: Seq<char>) -> bool {
    s.len() > 0 && (s[0] == '-' || s[0] == '+')
}

/// The band number that a text writes: an optional sign, then at least one
/// decimal digit and nothing else, for a number within `isize`.
pub open spec fn band_number(s: Seq<char>) -> Option<isize> {
    let digits = if has_sign(s) {
        s.skip(1)
    } else {
        s
    };
    let value = if has_sign(s) && s[0] == '-' {
        -(decimal_value(digits) as int)
    } else {
        decimal_value(digits) as int
    };
    if digits.len() == 0 || !all_digits(digits) || value < isize::MIN || value > isize::MAX {
        None
    } else {
        Some(value as isize)
    }
}

/// The place of the first colon at or after `from`; the length of the text
/// if there is none.
pub open spec fn colon_from(s: Seq<char>, from: int) -> int
    decreases s.len() - from,
{
    if from < 0 || from >= s.len() {
        s.len() as int
    } else if s[from] == ':' {
        from
    } else {
        colon_from(s, from + 1)
    }
}

/// What `split_path_band` returns, with the path as plain text.
///
/// The path is what stands before the first colon. The band is what stands
/// between the first colon and the second, or the end; without a colon the
/// band is 1. What follows a second colon is not looked at.
pub open spec fn split_path_band_spec(s: Seq<char>) -> Option<(Seq<char>, isize)> {
    let first = colon_from(s, 0);
    if first == s.len() {
        Some((s, 1isize))
    } else {
        let second = colon_from(s, first + 1);
        match band_number(s.subrange(first + 1, second)) {
            Some(band) => Some((s.subrange(0, first), band)),
            None => None,
        }
    }
}

/// A longer text of digits writes no smaller number than its beginning.
proof fn lemma_decimal_value_grows(s: Seq<char>, k: int)
    requires
        0 <= k <= s.len(),
    ensures
        decimal_value(s.take(k)) <= decimal_value(s),
    decreases s.len() - k,
{
    if k == s.len() {
        assert(s.take(k) =~= s);
    } else {
        lemma_decimal_value_grows(s, k + 1);
        assert(s.take(k + 1).drop_last() =~= s.take(k));
    }
}

fn find_colon(text: &str, from: usize, len: usize) -> (r: usize)
    requires
        len == text@.len(),
        from <= len,
    ensures
        r == colon_from(text@, from as int),
        from <= r <= len,
{
    let mut i: usize = from;
    while i < len
        invariant
            len == text@.len(),
            from <= i <= len,
            colon_from(text@, from as int) == colon_from(text@, i as int),
        decreases len - i,
    {
        if text.get_char(i) == ':' {
            return i;
        }
        i += 1;
    }
    i
}

fn parse_band(text: &str, from: usize, to: usize) -> (r: Option<isize>)
    requires
        from <= to <= text@.len(),
    ensures
        r == band_number(text@.subrange(from as int, to as int)),
{
    let ghost s = text@.subrange(from as int, to as int);
    if from == to {
        return None;
    }
    let first = text.get_char(from);
    assert(s[0] == first);
    let negative = first == '-';
    let start: usize = if first == '-' || first == '+' {
        from + 1
    } else {
        from
    };
    let ghost digits = text@.subrange(start as int, to as int);
    assert(digits =~= if has_sign(s) {
        s.skip(1)
    } else {
        s
    });
    if start == to {
        return None;
    }
    let mut reach: u128 = 0;
    let mut i: usize = start;
    while i < to
        invariant
            from <= start <= i <= to <= text@.len(),
            s == text@.subrange(from as int, to as int),
            digits == text@.subrange(start as int, to as int),
            digits == if has_sign(s) {
                s.skip(1)
            } else {
                s
            },
            reach == decimal_value(digits.take(i - start)),
            all_digits(digits.take(i - start)),
            reach <= 0x8000_0000_0000_0000,
        decreases to - i,
    {
        let c = text.get_char(i);
        let code: u32 = c as u32;
        assert(digits[i - start] == c);
        if code < 48 || code > 57 {
            return None;
        }
        proof {
            assert(digits.take(i - start + 1).drop_last() =~= digits.take(i - start));
            assert(digits.take(i - start + 1).last() == c);
        }
        reach = reach * 10 + (code - 48) as u128;
        if reach > 0x8000_0000_0000_0000 {
            proof {
                lemma_decimal_value_grows(digits, i - start + 1);
            }
            return None;
        }
        i += 1;
    }
    assert(digits.take(i - start) =~= digits);
    let value: i128 = if negative {
        -(reach as i128)
    } else {
        reach as i128
    };
    if value < isize::MIN as i128 || value > isize::MAX as i128 {
        None
    } else {
        Some(value as isize)
    }
}

/// Splits text such as `parent/file.tif:2` into the path and the band
/// number, here `parent/file.tif` and 2. Without a colon the band is 1.
///
/// Returns `None` if what follows the first colon, up to a second one, is
/// not a band number.
pub fn split_path_band<'a>(input: &'a str) -> (r: Option<(&'a str, isize)>)
    ensures
        r is None <==> split_path_band_spec(input@) is None,
        r matches Some(found) ==> split_path_band_spec(input@) == Some((found.0@, found.1)),
{
    let len = input.unicode_len();
    let first = find_colon(input, 0, len);
    if first == len {
        return Some((input, 1));
    }
    let second = find_colon(input, first + 1, len);
    match parse_band(input, first + 1, second) {
        Some(band) => Some((input.substring_char(0, first), band)),
        None => None,
    }
}

} // verus!
