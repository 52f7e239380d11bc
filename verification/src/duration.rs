//! Travel durations as the routing provider writes them: whole seconds in
//! decimal, an optional fraction, and a closing `s`, as in `1234s` or `3.5s`.

use crate::error::Error;
use vstd::prelude::*;
use vstd::string::*;

verus! {

/// A decimal digit.
pub open spec fn is_digit(c: char) -> bool {
    '0' <= c && c <= '9'
}

/// The number a decimal digit stands for.
pub open spec fn digit_value(c: char) -> nat {
    (c as nat - '0' as nat) as nat
}

/// Every character of `s` is a decimal digit.
pub open spec fn all_digits(s: Seq<char>) -> bool {
    forall|i: int| 0 <= i < s.len() ==> is_digit(#[trigger] s[i])
}

/// The number a run of decimal digits stands for.
pub open spec fn decimal_value(digits: Seq<char>) -> nat
    decreases digits.len(),
{
    if digits.len() == 0 {
        0
    } else {
        decimal_value(digits.drop_last()) * 10 + digit_value(digits.last())
    }
}

/// `text` is a duration whose whole-seconds part is its first `whole`
/// characters: one or more digits, then either the closing `s`, or a `.`,
/// one or more digits and the closing `s`.
pub open spec fn is_duration(text: Seq<char>, whole: int) -> bool {
    &&& 1 <= whole < text.len()
    &&& all_digits(text.take(whole))
    &&& text.last() == 's'
    &&& (whole == text.len() - 1 || (text[whole] == '.' && whole + 2 <= text.len() - 1
        && all_digits(text.subrange(whole + 1, text.len() - 1))))
}

/// The whole seconds of a duration, the fraction dropped; `None` where
/// `text` is not a duration.
pub open spec fn duration_seconds(text: Seq<char>) -> Option<nat> {
    if exists|whole: int| is_duration(text, whole) {
        Some(decimal_value(text.take(choose|whole: int| is_duration(text, whole))))
    } else {
        None
    }
}

/// The whole-seconds part of a duration is determined by the text.
pub proof fn lemma_duration_whole_unique(text: Seq<char>, a: int, b: int)
    requires
        is_duration(text, a),
        is_duration(text, b),
    ensures
        a == b,
{
    if a < b {
        assert(text.take(b)[a] == text[a]);
    } else if b < a {
        assert(text.take(a)[b] == text[b]);
    }
}

/// Reads a duration and returns its whole seconds.
///
/// Fails with `Error::Parse` where `text` is not a duration or its whole
/// seconds do not fit in `usize`.
pub fn parse_duration(text: &str) -> (r: Result<usize, Error>)
    ensures
        r == (match duration_seconds(text@) {
            Some(n) if n <= usize::MAX => Ok::<usize, Error>(n as usize),
            _ => Err(Error::Parse),
        }),
{
    broadcast use vstd::utf8::is_ascii_chars_nat_bound;

    if !text.is_ascii() {
        proof {
            if exists|whole: int| is_duration(text@, whole) {
                let whole = choose|whole: int| is_duration(text@, whole);
                assert forall|i: int| 0 <= i < text@.len() implies '\0' <= #[trigger] text@[i]
                    <= '\u{7f}' by {
                    if i < whole {
                        assert(text@.take(whole)[i] == text@[i]);
                    } else if i > whole && i < text@.len() - 1 {
                        assert(text@.subrange(whole + 1, text@.len() - 1)[i - whole - 1]
                            == text@[i]);
                    }
                }
                assert(false);
            }
        }
        return Err(Error::Parse);
    }
    let n = text.unicode_len();
    let mut value: usize = 0;
    let mut overflow = false;
    let mut whole: usize = 0;
    while whole < n && is_digit_byte(text.get_ascii(whole))
        invariant
            whole <= n,
            n == text@.len(),
            text.is_ascii(),
            all_digits(text@.take(whole as int)),
            !overflow ==> value == decimal_value(text@.take(whole as int)),
            overflow ==> decimal_value(text@.take(whole as int)) > usize::MAX,
        decreases n - whole,
    {
        let d = digit_of_byte(text.get_ascii(whole));
        proof {
            let next = text@.take(whole + 1);
            assert(next.drop_last() =~= text@.take(whole as int));
            assert(next.last() == text@[whole as int]);
            assert(digit_value(text@[whole as int]) == d);
            assert forall|i: int| 0 <= i < next.len() implies is_digit(#[trigger] next[i]) by {
                if i < whole {
                    assert(text@.take(whole as int)[i] == next[i]);
                }
            }
        }
        if !overflow {
            match value.checked_mul(10) {
                Some(scaled) => match scaled.checked_add(d) {
                    Some(sum) => {
                        value = sum;
                    },
                    None => {
                        overflow = true;
                    },
                },
                None => {
                    overflow = true;
                },
            }
        }
        whole += 1;
    }
    let ghost w = whole as int;
    let mut valid = 1 <= whole && whole < n && text.get_ascii(n - 1) == 115u8;
    if valid && whole != n - 1 {
        if text.get_ascii(whole) == 46u8 && whole + 2 <= n - 1 {
            let mut i: usize = whole + 1;
            while i < n - 1 && is_digit_byte(text.get_ascii(i))
                invariant
                    whole + 1 <= i <= n - 1,
                    n == text@.len(),
                    text.is_ascii(),
                    all_digits(text@.subrange(whole + 1, i as int)),
                decreases n - i,
            {
                proof {
                    let next = text@.subrange(whole + 1, i + 1);
                    assert forall|k: int| 0 <= k < next.len() implies is_digit(#[trigger] next[k]) by {
                        if k < i - whole - 1 {
                            assert(text@.subrange(whole + 1, i as int)[k] == next[k]);
                        }
                    }
                }
                i += 1;
            }
            if i != n - 1 {
                valid = false;
                proof {
                    if is_duration(text@, w) {
                        assert(text@.subrange(w + 1, text@.len() - 1)[i - w - 1] == text@[i as int]);
                    }
                }
            }
        } else {
            valid = false;
        }
    }
    proof {
        assert(valid == is_duration(text@, w));
        if !valid {
            if exists|other: int| is_duration(text@, other) {
                let other = choose|other: int| is_duration(text@, other);
                if other < w {
                    assert(text@.take(w)[other] == text@[other]);
                } else if w < other {
                    assert(text@.take(other)[w] == text@[w]);
                }
                assert(false);
            }
        } else {
            let chosen = choose|whole: int| is_duration(text@, whole);
            lemma_duration_whole_unique(text@, chosen, w);
        }
    }
    if valid && !overflow {
        Ok(value)
    } else {
        Err(Error::Parse)
    }
}

/// Whether an ASCII byte is a decimal digit.
pub(crate) fn is_digit_byte(b: u8) -> (r: bool)
    ensures
        r == (48 <= b <= 57),
{
    48 <= b && b <= 57
}

/// The number an ASCII digit stands for.
pub(crate) fn digit_of_byte(b: u8) -> (d: usize)
    requires
        48 <= b <= 57,
    ensures
        d == b - 48,
{
    (b - 48) as usize
}

} // verus!
