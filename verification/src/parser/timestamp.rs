//! Timestamps (`mm:ss.xx`), signed integers and voice keys of LRC tags.

use vstd::prelude::*;

use crate::text::{
    all_digits, ascii_lower, find_char, find_from, lemma_find_from, lemma_trim_end_bounds,
    lemma_trim_start_bounds, same_ignoring_ascii_case, to_ascii_lower, trim_bounds,
    trim_end_index, trim_start_index,
};
use crate::time::{i64_max, i64_min, LyricTime};

verus! {

#[derive(Clone, Copy, Debug, PartialEq, Eq, Structural)]
pub enum TimestampError {
    MissingSeparator,
    InvalidMinutes,
    InvalidSeconds,
    SecondsOutOfRange,
    Overflow,
}

impl TimestampError {
    /// The explanation of the error, as written into diagnostics.
    pub open spec fn message_text(self) -> Seq<char> {
        match self {
            TimestampError::MissingSeparator => "expected mm:ss"@,
            TimestampError::InvalidMinutes => "minutes are not an unsigned integer"@,
            TimestampError::InvalidSeconds => "seconds are not a valid decimal"@,
            TimestampError::SecondsOutOfRange => "seconds must be below 60"@,
            TimestampError::Overflow => "timestamp is too large"@,
        }
    }

    /// The explanation written into diagnostics.
    pub fn message(self) -> (text: &'static str)
        ensures
            text@ == self.message_text(),
    {
        match self {
            TimestampError::MissingSeparator => "expected mm:ss",
            TimestampError::InvalidMinutes => "minutes are not an unsigned integer",
            TimestampError::InvalidSeconds => "seconds are not a valid decimal",
            TimestampError::SecondsOutOfRange => "seconds must be below 60",
            TimestampError::Overflow => "timestamp is too large",
        }
    }
}

/// The value of a string of ASCII digits.
pub open spec fn digits_value(digits: Seq<char>) -> nat
    decreases digits.len(),
{
    if digits.len() == 0 {
        0
    } else {
        digits_value(digits.drop_last()) * 10 + ((digits.last() as int - 48) as nat)
    }
}

/// `10^exponent`.
pub open spec fn pow10(exponent: nat) -> nat
    decreases exponent,
{
    if exponent == 0 {
        1
    } else {
        10 * pow10((exponent - 1) as nat)
    }
}

/// A decimal fraction in microseconds: its first six digits, scaled to six places.
pub open spec fn fraction_micros(fraction: Seq<char>) -> nat {
    if fraction.len() >= 6 {
        digits_value(fraction.take(6))
    } else {
        digits_value(fraction) * pow10((6 - fraction.len()) as nat)
    }
}

/// The position of the first `c` in `chars`, if any.
pub open spec fn first_index(chars: Seq<char>, c: char) -> Option<int> {
    find_from(chars, c, 0, chars.len() as int)
}

/// An `mm:ss` or `mm:ss.fff` timestamp: its value in microseconds, or why it is rejected.
/// Minutes are one or more digits; seconds are one or more digits below 60, optionally
/// followed by `.` and one or more digits, of which the first six count.
pub open spec fn timestamp_value(chars: Seq<char>) -> Result<int, TimestampError> {
    match first_index(chars, ':') {
        None => Err(TimestampError::MissingSeparator),
        Some(colon) => {
            let minutes = chars.take(colon);
            let seconds = chars.skip(colon + 1);
            let (whole, fraction) = match first_index(seconds, '.') {
                Some(dot) => (seconds.take(dot), Some(seconds.skip(dot + 1))),
                None => (seconds, None),
            };
            if minutes.len() == 0 || !all_digits(minutes) {
                Err(TimestampError::InvalidMinutes)
            } else if digits_value(minutes) > i64_max() {
                Err(TimestampError::Overflow)
            } else if whole.len() == 0 || !all_digits(whole) || (fraction matches Some(f) && (
            f.len() == 0 || !all_digits(f))) {
                Err(TimestampError::InvalidSeconds)
            } else if digits_value(whole) > i64_max() {
                Err(TimestampError::Overflow)
            } else if digits_value(whole) >= 60 {
                Err(TimestampError::SecondsOutOfRange)
            } else {
                let frac = match fraction {
                    Some(f) => fraction_micros(f),
                    None => 0,
                };
                let total = (digits_value(minutes) * 60 + digits_value(whole)) * 1_000_000 + frac;
                if total > i64_max() {
                    Err(TimestampError::Overflow)
                } else {
                    Ok(total as int)
                }
            }
        },
    }
}

pub proof fn lemma_digits_value_push(digits: Seq<char>, c: char)
    ensures
        digits_value(digits.push(c)) == digits_value(digits) * 10 + ((c as int - 48) as nat),
{
    assert(digits.push(c).drop_last() =~= digits);
}

/// Appending digits never lowers a value.
pub proof fn lemma_digits_value_prefix(digits: Seq<char>, i: int)
    requires
        0 <= i <= digits.len(),
        all_digits(digits),
    ensures
        digits_value(digits.take(i)) <= digits_value(digits),
    decreases digits.len() - i,
{
    if i < digits.len() {
        lemma_digits_value_prefix(digits, i + 1);
        assert(digits.take(i + 1).drop_last() =~= digits.take(i));
        assert(digits.take(i + 1).last() == digits[i]);
    } else {
        assert(digits.take(i) =~= digits);
    }
}

/// The value of `chars[start..end]`, a run of digits, when it fits in an `i64`.
pub fn parse_digits(chars: &Vec<char>, start: usize, end: usize) -> (value: Option<i64>)
    requires
        start <= end <= chars.len(),
        all_digits(chars@.subrange(start as int, end as int)),
    ensures
        value matches Some(v) ==> v == digits_value(chars@.subrange(start as int, end as int)),
        value is None <==> digits_value(chars@.subrange(start as int, end as int)) > i64_max(),
{
    let ghost digits = chars@.subrange(start as int, end as int);
    let mut value: i64 = 0;
    let mut i = start;
    while i < end
        invariant
            start <= i <= end <= chars.len(),
            digits == chars@.subrange(start as int, end as int),
            all_digits(digits),
            value == digits_value(chars@.subrange(start as int, i as int)),
        decreases end - i,
    {
        let c = chars[i];
        assert(digits[i - start] == c);
        let digit = (c as u32 - 48) as i64;
        proof {
            assert(chars@.subrange(start as int, i + 1) =~= chars@.subrange(start as int, i as int).push(c));
            lemma_digits_value_push(chars@.subrange(start as int, i as int), c);
        }
        match value.checked_mul(10) {
            Some(tens) => match tens.checked_add(digit) {
                Some(next) => value = next,
                None => {
                    proof {
                        assert(chars@.subrange(start as int, i + 1) =~= digits.take(i + 1 - start));
                        lemma_digits_value_prefix(digits, i + 1 - start);
                    }
                    return None;
                },
            },
            None => {
                proof {
                    assert(chars@.subrange(start as int, i + 1) =~= digits.take(i + 1 - start));
                    lemma_digits_value_prefix(digits, i + 1 - start);
                }
                return None;
            },
        }
        i += 1;
    }
    Some(value)
}

/// Whether `chars[start..end]` is all ASCII digits.
pub fn range_all_digits(chars: &Vec<char>, start: usize, end: usize) -> (digits: bool)
    requires
        start <= end <= chars.len(),
    ensures
        digits == all_digits(chars@.subrange(start as int, end as int)),
{
    let mut i = start;
    while i < end
        invariant
            start <= i <= end <= chars.len(),
            all_digits(chars@.subrange(start as int, i as int)),
        decreases end - i,
    {
        let c = chars[i];
        if !('0' <= c && c <= '9') {
            assert(chars@.subrange(start as int, end as int)[i - start] == c);
            return false;
        }
        assert forall|k: int| 0 <= k < i + 1 - start implies '0' <= #[trigger] chars@.subrange(
            start as int,
            i + 1,
        )[k] <= '9' by {
            if k < i - start {
                assert(chars@.subrange(start as int, i + 1)[k] == chars@.subrange(
                    start as int,
                    i as int,
                )[k]);
            }
        }
        i += 1;
    }
    true
}

proof fn lemma_pow10_positive(exponent: nat)
    ensures
        pow10(exponent) >= 1,
    decreases exponent,
{
    if exponent > 0 {
        lemma_pow10_positive((exponent - 1) as nat);
    }
}

proof fn lemma_digits_value_bound(digits: Seq<char>)
    requires
        all_digits(digits),
    ensures
        digits_value(digits) < pow10(digits.len()),
    decreases digits.len(),
{
    if digits.len() > 0 {
        let prefix = digits.drop_last();
        assert(all_digits(prefix)) by {
            assert forall|i: int| 0 <= i < prefix.len() implies '0' <= #[trigger] prefix[i] <= '9' by {
                assert(prefix[i] == digits[i]);
            }
        }
        lemma_digits_value_bound(prefix);
        assert(digits[digits.len() - 1] <= '9');
    }
}

/// The microseconds of a decimal fraction: its first six digits, padded to six places.
pub fn decimal_fraction_to_micros(chars: &Vec<char>, start: usize, end: usize) -> (micros: i64)
    requires
        start <= end <= chars.len(),
        all_digits(chars@.subrange(start as int, end as int)),
    ensures
        micros == fraction_micros(chars@.subrange(start as int, end as int)),
        micros < 1_000_000,
{
    let ghost fraction = chars@.subrange(start as int, end as int);
    let mut micros: i64 = 0;
    let mut digits: usize = 0;
    while digits < 6 && start + digits < end
        invariant
            start <= end <= chars.len(),
            fraction == chars@.subrange(start as int, end as int),
            all_digits(fraction),
            digits <= 6,
            start + digits <= end,
            micros == digits_value(fraction.take(digits as int)),
            micros < pow10(digits as nat),
        decreases 6 - digits,
    {
        let c = chars[start + digits];
        assert(fraction[digits as int] == c);
        proof {
            assert(fraction.take(digits + 1) =~= fraction.take(digits as int).push(c));
            lemma_digits_value_push(fraction.take(digits as int), c);
            assert(pow10((digits + 1) as nat) == 10 * pow10(digits as nat));
            lemma_pow10_six();
            lemma_pow10_monotone(digits as nat + 1, 6);
        }
        micros = micros * 10 + (c as u32 - 48) as i64;
        digits += 1;
    }
    let ghost taken = digits;
    proof {
        assert(pow10(0) == 1);
        assert(digits_value(fraction.take(taken as int)) * pow10(0) == digits_value(
            fraction.take(taken as int),
        ));
        assert(taken == fraction.len() || taken == 6);
        if fraction.len() < 6 {
            assert(fraction.take(digits as int) =~= fraction);
        }
    }
    while digits < 6
        invariant
            start <= end <= chars.len(),
            fraction == chars@.subrange(start as int, end as int),
            digits <= 6,
            taken <= digits,
            taken == fraction.len() || taken == 6,
            micros == digits_value(fraction.take(taken as int)) * pow10((digits - taken) as nat),
            micros < pow10(digits as nat),
        decreases 6 - digits,
    {
        proof {
            assert(pow10((digits + 1 - taken) as nat) == 10 * pow10((digits - taken) as nat));
            assert(pow10((digits + 1) as nat) == 10 * pow10(digits as nat));
            lemma_pow10_six();
            lemma_pow10_monotone(digits as nat + 1, 6);
            assert(digits_value(fraction.take(taken as int)) * pow10((digits + 1 - taken) as nat)
                == digits_value(fraction.take(taken as int)) * pow10((digits - taken) as nat) * 10)
                by (nonlinear_arith)
                requires
                    pow10((digits + 1 - taken) as nat) == 10 * pow10((digits - taken) as nat),
            ;
        }
        micros = micros * 10;
        digits += 1;
    }
    proof {
        lemma_pow10_six();
        if fraction.len() >= 6 {
            assert(taken == 6);
            assert(pow10(0) == 1);
        } else {
            assert(taken == fraction.len());
            assert(fraction.take(taken as int) =~= fraction);
        }
    }
    micros
}

proof fn lemma_pow10_six()
    ensures
        pow10(6) == 1_000_000,
{
    reveal_with_fuel(pow10, 7);
}

proof fn lemma_pow10_monotone(a: nat, b: nat)
    requires
        a <= b,
    ensures
        pow10(a) <= pow10(b),
    decreases b - a,
{
    if a < b {
        lemma_pow10_monotone(a, (b - 1) as nat);
        lemma_pow10_positive((b - 1) as nat);
    }
}

/// Parses `chars[start..end]` as a timestamp.
pub fn parse_timestamp(chars: &Vec<char>, start: usize, end: usize) -> (result: Result<LyricTime, TimestampError>)
    requires
        start <= end <= chars.len(),
    ensures
        match (result, timestamp_value(chars@.subrange(start as int, end as int))) {
            (Ok(time), Ok(value)) => time.micros() == value,
            (Err(e), Err(f)) => e == f,
            _ => false,
        },
{
    let ghost s = chars@.subrange(start as int, end as int);
    proof {
        lemma_find_from(chars@, ':', start as int, end as int);
        lemma_find_from_shift(chars@, ':', start as int, end as int);
    }
    let colon = match find_char(chars, ':', start, end) {
        Some(colon) => colon,
        None => return Err(TimestampError::MissingSeparator),
    };
    assert(first_index(s, ':') == Some(colon - start));
    let ghost minutes = s.take(colon - start);
    let ghost seconds = s.skip(colon - start + 1);
    assert(minutes =~= chars@.subrange(start as int, colon as int));
    assert(seconds =~= chars@.subrange(colon + 1, end as int));
    proof {
        lemma_find_from(chars@, '.', colon + 1, end as int);
        lemma_find_from_shift(chars@, '.', colon + 1, end as int);
    }
    let dot = find_char(chars, '.', colon + 1, end);
    let whole_end = match dot {
        Some(d) => d,
        None => end,
    };
    if colon == start || !range_all_digits(chars, start, colon) {
        return Err(TimestampError::InvalidMinutes);
    }
    let minutes_value = match parse_digits(chars, start, colon) {
        Some(v) => v,
        None => return Err(TimestampError::Overflow),
    };
    let fraction_ok = match dot {
        Some(d) => d + 1 < end && range_all_digits(chars, d + 1, end),
        None => true,
    };
    proof {
        match dot {
            Some(d) => {
                assert(first_index(seconds, '.') == Some(d - colon - 1));
                assert(seconds.take(d - colon - 1) =~= chars@.subrange(colon + 1, d as int));
                assert(seconds.skip(d - colon - 1 + 1) =~= chars@.subrange(d + 1, end as int));
            },
            None => {
                assert(first_index(seconds, '.') is None);
            },
        }
    }
    if whole_end == colon + 1 || !range_all_digits(chars, colon + 1, whole_end) || !fraction_ok {
        return Err(TimestampError::InvalidSeconds);
    }
    let seconds_value = match parse_digits(chars, colon + 1, whole_end) {
        Some(v) => v,
        None => return Err(TimestampError::Overflow),
    };
    if seconds_value >= 60 {
        return Err(TimestampError::SecondsOutOfRange);
    }
    let fraction_value = match dot {
        Some(d) => decimal_fraction_to_micros(chars, d + 1, end),
        None => 0,
    };
    let whole_micros = match minutes_value.checked_mul(60) {
        Some(m) => match m.checked_add(seconds_value) {
            Some(total) => total.checked_mul(1_000_000),
            None => None,
        },
        None => None,
    };
    proof {
        let mv = minutes_value as int;
        let sv = seconds_value as int;
        assert(mv * 60 <= (mv * 60 + sv) * 1_000_000) by (nonlinear_arith)
            requires
                mv >= 0,
                sv >= 0,
        ;
    }
    match whole_micros {
        Some(w) => match w.checked_add(fraction_value) {
            Some(total) => Ok(LyricTime(total)),
            None => Err(TimestampError::Overflow),
        },
        None => Err(TimestampError::Overflow),
    }
}

/// `find_from` over a subrange is `find_from` over the whole, shifted.
pub proof fn lemma_find_from_shift(chars: Seq<char>, c: char, start: int, end: int)
    requires
        0 <= start <= end <= chars.len(),
    ensures
        match (find_from(chars, c, start, end), first_index(chars.subrange(start, end), c)) {
            (Some(i), Some(j)) => i == start + j,
            (None, None) => true,
            _ => false,
        },
{
    let s = chars.subrange(start, end);
    lemma_find_from(chars, c, start, end);
    lemma_find_from(s, c, 0, s.len() as int);
    match (find_from(chars, c, start, end), first_index(s, c)) {
        (Some(i), Some(j)) => {
            if i < start + j {
                assert(s[i - start] == chars[i]);
            } else if i > start + j {
                assert(s[j] == chars[start + j]);
            }
        },
        (Some(i), None) => {
            assert(s[i - start] == chars[i]);
        },
        (None, Some(j)) => {
            assert(s[j] == chars[start + j]);
        },
        (None, None) => {},
    }
}

/// Whether a tag looks like a timestamp: it starts with a digit and holds a colon.
pub open spec fn timestamp_like(chars: Seq<char>) -> bool {
    chars.len() > 0 && '0' <= chars[0] <= '9' && first_index(chars, ':') is Some
}

pub fn looks_like_timestamp(chars: &Vec<char>, start: usize, end: usize) -> (like: bool)
    requires
        start <= end <= chars.len(),
    ensures
        like == timestamp_like(chars@.subrange(start as int, end as int)),
{
    proof {
        lemma_find_from_shift(chars@, ':', start as int, end as int);
    }
    if start == end {
        return false;
    }
    let first = chars[start];
    assert(chars@.subrange(start as int, end as int)[0] == first);
    '0' <= first && first <= '9' && find_char(chars, ':', start, end).is_some()
}

/// A voice key once trimmed: `bg`, `background`, or `v` followed by one or more digits,
/// ignoring ASCII case.
pub open spec fn voice_key(key: Seq<char>) -> bool {
    let low = trim_start_index(key, 0, key.len() as int);
    let high = trim_end_index(key, low, key.len() as int);
    let word = key.subrange(low, high);
    ||| same_ignoring_ascii_case(word, seq!['b', 'g'])
    ||| same_ignoring_ascii_case(word, seq!['b', 'a', 'c', 'k', 'g', 'r', 'o', 'u', 'n', 'd'])
    ||| (word.len() >= 2 && ascii_lower(word[0]) == 'v' && all_digits(word.skip(1)))
}

proof fn lemma_trim_shift(chars: Seq<char>, start: int, end: int)
    requires
        0 <= start <= end <= chars.len(),
    ensures
        trim_start_index(chars, start, end) - start == trim_start_index(
            chars.subrange(start, end),
            0,
            end - start,
        ),
        trim_end_index(chars, trim_start_index(chars, start, end), end) - start == trim_end_index(
            chars.subrange(start, end),
            trim_start_index(chars, start, end) - start,
            end - start,
        ),
{
    lemma_trim_start_shift(chars, start, start, end);
    lemma_trim_start_bounds(chars, start, end);
    lemma_trim_end_shift(chars, start, trim_start_index(chars, start, end), end, end);
}

proof fn lemma_trim_start_shift(chars: Seq<char>, base: int, start: int, end: int)
    requires
        0 <= base <= start <= end <= chars.len(),
    ensures
        trim_start_index(chars, start, end) - base == trim_start_index(
            chars.subrange(base, end),
            start - base,
            end - base,
        ),
    decreases end - start,
{
    if start < end {
        assert(chars.subrange(base, end)[start - base] == chars[start]);
        lemma_trim_start_shift(chars, base, start + 1, end);
    }
}

proof fn lemma_trim_end_shift(chars: Seq<char>, base: int, start: int, end: int, limit: int)
    requires
        0 <= base <= start <= end <= limit <= chars.len(),
    ensures
        trim_end_index(chars, start, end) - base == trim_end_index(
            chars.subrange(base, limit),
            start - base,
            end - base,
        ),
    decreases end - start,
{
    if start < end {
        assert(chars.subrange(base, limit)[end - 1 - base] == chars[end - 1]);
        lemma_trim_end_shift(chars, base, start, end - 1, limit);
    }
}

pub fn is_voice_key(chars: &Vec<char>, start: usize, end: usize) -> (voice: bool)
    requires
        start <= end <= chars.len(),
    ensures
        voice == voice_key(chars@.subrange(start as int, end as int)),
{
    let (low, high) = trim_bounds(chars, start, end);
    proof {
        lemma_trim_shift(chars@, start as int, end as int);
    }
    let ghost key = chars@.subrange(start as int, end as int);
    assert(key.subrange(low - start, high - start) =~= chars@.subrange(low as int, high as int));
    let bg = vec!['b', 'g'];
    let background = vec!['b', 'a', 'c', 'k', 'g', 'r', 'o', 'u', 'n', 'd'];
    assert(bg@ =~= seq!['b', 'g']);
    assert(background@ =~= seq!['b', 'a', 'c', 'k', 'g', 'r', 'o', 'u', 'n', 'd']);
    if range_eq_ignore(chars, low, high, &bg) || range_eq_ignore(chars, low, high, &background) {
        return true;
    }
    if high - low >= 2 && to_ascii_lower(chars[low]) == 'v' {
        let digits = range_all_digits(chars, low + 1, high);
        assert(chars@.subrange(low as int, high as int).skip(1) =~= chars@.subrange(
            low + 1,
            high as int,
        ));
        return digits;
    }
    false
}

fn range_eq_ignore(chars: &Vec<char>, start: usize, end: usize, word: &Vec<char>) -> (same: bool)
    requires
        start <= end <= chars.len(),
    ensures
        same == same_ignoring_ascii_case(chars@.subrange(start as int, end as int), word@),
{
    crate::text::range_eq_ignore_ascii_case(chars, start, end, word)
}

/// Whether a tag's contents are an inline voice tag: the part before its first colon is a
/// voice key.
pub open spec fn inline_variant_tag(contents: Seq<char>) -> bool {
    match first_index(contents, ':') {
        Some(colon) => voice_key(contents.take(colon)),
        None => false,
    }
}

pub fn is_inline_variant_tag(chars: &Vec<char>, start: usize, end: usize) -> (variant: bool)
    requires
        start <= end <= chars.len(),
    ensures
        variant == inline_variant_tag(chars@.subrange(start as int, end as int)),
{
    proof {
        lemma_find_from(chars@, ':', start as int, end as int);
        lemma_find_from_shift(chars@, ':', start as int, end as int);
    }
    match find_char(chars, ':', start, end) {
        Some(colon) => {
            assert(chars@.subrange(start as int, end as int).take(colon - start) =~= chars@.subrange(
                start as int,
                colon as int,
            ));
            is_voice_key(chars, start, colon)
        },
        None => false,
    }
}

/// The value of a signed decimal integer, `+` or `-` then one or more digits, when it fits
/// in an `i64`.
pub open spec fn signed_value(chars: Seq<char>) -> Option<int> {
    let (negative, digits) = if chars.len() > 0 && chars[0] == '-' {
        (true, chars.skip(1))
    } else if chars.len() > 0 && chars[0] == '+' {
        (false, chars.skip(1))
    } else {
        (false, chars)
    };
    if digits.len() == 0 || !all_digits(digits) {
        None
    } else {
        let value = if negative {
            -(digits_value(digits) as int)
        } else {
            digits_value(digits) as int
        };
        if i64_min() <= value <= i64_max() {
            Some(value)
        } else {
            None
        }
    }
}

/// `str::parse::<i64>` of `chars[start..end]`.
pub fn parse_signed(chars: &Vec<char>, start: usize, end: usize) -> (value: Option<i64>)
    requires
        start <= end <= chars.len(),
    ensures
        value matches Some(v) ==> signed_value(chars@.subrange(start as int, end as int)) == Some(
            v as int,
        ),
        value is None ==> signed_value(chars@.subrange(start as int, end as int)) is None,
{
    let ghost s = chars@.subrange(start as int, end as int);
    let mut digits_start = start;
    let mut negative = false;
    if start < end && chars[start] == '-' {
        negative = true;
        digits_start = start + 1;
    } else if start < end && chars[start] == '+' {
        digits_start = start + 1;
    }
    proof {
        if start < end {
            assert(s[0] == chars@[start as int]);
        }
        assert(s.skip(digits_start - start) =~= chars@.subrange(digits_start as int, end as int));
    }
    if digits_start == end || !range_all_digits(chars, digits_start, end) {
        proof {
            if digits_start == start {
                assert(s =~= chars@.subrange(digits_start as int, end as int));
            }
        }
        return None;
    }
    proof {
        if digits_start == start {
            assert(s =~= chars@.subrange(digits_start as int, end as int));
        }
    }
    // Accumulate towards the sign so that `i64::MIN` can be read.
    let ghost digits = chars@.subrange(digits_start as int, end as int);
    let mut value: i64 = 0;
    let mut i = digits_start;
    while i < end
        invariant
            start <= digits_start <= i <= end <= chars.len(),
            s == chars@.subrange(start as int, end as int),
            negative ==> digits_start == start + 1 && chars@[start as int] == '-',
            !negative ==> digits_start == start || (digits_start == start + 1 && chars@[start as int] == '+'),
            digits == chars@.subrange(digits_start as int, end as int),
            all_digits(digits),
            negative ==> value == -(digits_value(chars@.subrange(digits_start as int, i as int)) as int),
            !negative ==> value == digits_value(chars@.subrange(digits_start as int, i as int)),
        decreases end - i,
    {
        let c = chars[i];
        assert(digits[i - digits_start] == c);
        let digit = (c as u32 - 48) as i64;
        proof {
            assert(chars@.subrange(digits_start as int, i + 1) =~= chars@.subrange(
                digits_start as int,
                i as int,
            ).push(c));
            lemma_digits_value_push(chars@.subrange(digits_start as int, i as int), c);
        }
        let next = match value.checked_mul(10) {
            Some(tens) => if negative {
                tens.checked_sub(digit)
            } else {
                tens.checked_add(digit)
            },
            None => None,
        };
        match next {
            Some(n) => value = n,
            None => {
                proof {
                    assert(chars@.subrange(digits_start as int, i + 1) =~= digits.take(
                        i + 1 - digits_start,
                    ));
                    lemma_digits_value_prefix(digits, i + 1 - digits_start);
                    if digits_start == start {
                        assert(s =~= digits);
                    } else {
                        assert(s.skip(1) =~= digits);
                    }
                }
                return None;
            },
        }
        i += 1;
    }
    Some(value)
}

} // verus!
