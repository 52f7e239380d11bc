//! Rows of the criteria form: an address, a word for the mode of travel and
//! a time budget in minutes, each as the text the user left in the field.

use crate::duration::{all_digits, decimal_value, digit_of_byte, digit_value, is_digit, is_digit_byte};
use crate::error::Error;
use crate::model::{Criterion, TransportationMode};
use crate::rows::same_text;
use vstd::prelude::*;
use vstd::string::*;

verus! {

/// The mode of travel a word of the form stands for.
pub open spec fn mode_of_word(word: Seq<char>) -> Option<TransportationMode> {
    if word == "cycling"@ {
        Some(TransportationMode::Cycling)
    } else if word == "driving"@ {
        Some(TransportationMode::Driving)
    } else if word == "walking"@ {
        Some(TransportationMode::Walking)
    } else if word == "public"@ {
        Some(TransportationMode::Public)
    } else {
        None
    }
}

/// Reads a word of the form as a mode of travel.
pub fn mode_from_word(word: &str) -> (mode: Option<TransportationMode>)
    ensures
        mode == mode_of_word(word@),
{
    if same_text(word, "cycling") {
        Some(TransportationMode::Cycling)
    } else if same_text(word, "driving") {
        Some(TransportationMode::Driving)
    } else if same_text(word, "walking") {
        Some(TransportationMode::Walking)
    } else if same_text(word, "public") {
        Some(TransportationMode::Public)
    } else {
        None
    }
}

/// The time budget a text stands for: one or more decimal digits, and a
/// number that is positive and fits `usize`.
pub open spec fn minutes_of(text: Seq<char>) -> Option<usize> {
    if text.len() > 0 && all_digits(text) && 0 < decimal_value(text) <= usize::MAX {
        Some(decimal_value(text) as usize)
    } else {
        None
    }
}

/// Reads a time budget in minutes.
///
/// Fails with `Error::Parse` where the text is not made of decimal digits,
/// or where the number is zero or does not fit `usize`.
pub fn parse_minutes(text: &str) -> (r: Result<usize, Error>)
    ensures
        r == (match minutes_of(text@) {
            Some(minutes) => Ok::<usize, Error>(minutes),
            None => Err(Error::Parse),
        }),
{
    if !text.is_ascii() {
        assert(!all_digits(text@));
        return Err(Error::Parse);
    }
    let n = text.unicode_len();
    if n == 0 {
        return Err(Error::Parse);
    }
    let mut value: usize = 0;
    let mut i: usize = 0;
    while i < n
        invariant
            i <= n,
            n == text@.len(),
            text.is_ascii(),
            all_digits(text@.take(i as int)),
            value == decimal_value(text@.take(i as int)),
        decreases n - i,
    {
        let b = text.get_ascii(i);
        if !is_digit_byte(b) {
            assert(!is_digit(text@[i as int]));
            return Err(Error::Parse);
        }
        let d = digit_of_byte(b);
        proof {
            let next = text@.take(i + 1);
            assert(next.drop_last() =~= text@.take(i as int));
            assert(next.last() == text@[i as int]);
            assert(digit_value(text@[i as int]) == d);
            assert forall|k: int| 0 <= k < next.len() implies is_digit(#[trigger] next[k]) by {
                if k < i {
                    assert(text@.take(i as int)[k] == next[k]);
                }
            }
            lemma_decimal_value_grows(text@, i + 1, n as int);
            assert(text@.take(n as int) =~= text@);
            assert(decimal_value(next) == value * 10 + d);
        }
        let scaled = match value.checked_mul(10) {
            Some(scaled) => scaled,
            None => return Err(Error::Parse),
        };
        value = match scaled.checked_add(d) {
            Some(sum) => sum,
            None => return Err(Error::Parse),
        };
        i += 1;
    }
    proof {
        assert(text@.take(n as int) =~= text@);
    }
    if value == 0 {
        Err(Error::Parse)
    } else {
        Ok(value)
    }
}

/// A longer run of digits never stands for a smaller number than its
/// beginning does.
pub proof fn lemma_decimal_value_grows(digits: Seq<char>, j: int, k: int)
    requires
        0 <= j <= k <= digits.len(),
    ensures
        decimal_value(digits.take(j)) <= decimal_value(digits.take(k)),
    decreases k - j,
{
    if j < k {
        lemma_decimal_value_grows(digits, j, k - 1);
        assert(digits.take(k).drop_last() =~= digits.take(k - 1));
    } else {
        assert(digits.take(k) =~= digits.take(j));
    }
}

/// Reads one row of the form into a criterion that keeps the color and the
/// location of the criterion the row was shown for.
///
/// - a mode word the engine does not know: `Error::UnknownMode`, whatever
///   the other fields hold;
/// - an empty address or an empty time budget: no criterion, and no error;
/// - a time budget that is not a positive number of minutes: `Error::Parse`.
pub fn criterion_from_row(previous: &Criterion, address: &str, mode: &str, time: &str) -> (r: Result<
    Option<Criterion>,
    Error,
>)
    ensures
        match mode_of_word(mode@) {
            None => r == Err::<Option<Criterion>, Error>(Error::UnknownMode),
            Some(travel) => if address@.len() == 0 || time@.len() == 0 {
                r == Ok::<Option<Criterion>, Error>(None)
            } else {
                match minutes_of(time@) {
                    None => r == Err::<Option<Criterion>, Error>(Error::Parse),
                    Some(minutes) => {
                        &&& r matches Ok(Some(made))
                        &&& made.mode == travel
                        &&& made.address@ == address@
                        &&& made.time == minutes
                        &&& made.color == previous.color
                        &&& made.location == previous.location
                        &&& made.well_formed()
                    },
                }
            },
        },
{
    let travel = match mode_from_word(mode) {
        Some(travel) => travel,
        None => return Err(Error::UnknownMode),
    };
    if address.is_empty() || time.is_empty() {
        return Ok(None);
    }
    let minutes = match parse_minutes(time) {
        Ok(minutes) => minutes,
        Err(e) => return Err(e),
    };
    Ok(
        Some(
            Criterion {
                mode: travel,
                address: address.to_owned(),
                time: minutes,
                color: previous.color.clone(),
                location: previous.location,
            },
        ),
    )
}

} // verus!
