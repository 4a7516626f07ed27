use vstd::prelude::*;
use vstd::string::StringExecFns;

verus! {

/// The smallest value of an `i64`, as a mathematical integer.
pub open spec fn i64_min() -> int {
    i64::MIN as int
}

/// The largest value of an `i64`, as a mathematical integer.
pub open spec fn i64_max() -> int {
    i64::MAX as int
}

/// `value` clamped into the range of an `i64`.
pub open spec fn saturate_i64(value: int) -> int {
    if value < i64_min() {
        i64_min()
    } else if value > i64_max() {
        i64_max()
    } else {
        value
    }
}

/// Whether `value` fits in an `i64`.
pub open spec fn fits_i64(value: int) -> bool {
    i64_min() <= value <= i64_max()
}

/// A signed media timestamp measured in microseconds.
#[derive(Clone, Copy, Debug, Default, PartialEq, Eq, PartialOrd, Ord, Hash, Structural)]
pub struct LyricTime(pub i64);

impl LyricTime {
    /// The media origin, `0µs`.
    pub fn zero() -> (time: LyricTime)
        ensures
            time.micros() == 0,
    {
        LyricTime(0)
    }

    /// The earliest representable timestamp.
    pub fn min_value() -> (time: LyricTime)
        ensures
            time.micros() == i64_min(),
    {
        LyricTime(i64::MIN)
    }

    /// The latest representable timestamp.
    pub fn max_value() -> (time: LyricTime)
        ensures
            time.micros() == i64_max(),
    {
        LyricTime(i64::MAX)
    }

    /// The timestamp in microseconds, as a mathematical integer.
    pub open spec fn micros(self) -> int {
        self.0 as int
    }

    pub fn from_micros(micros: i64) -> (time: LyricTime)
        ensures
            time.micros() == micros,
    {
        LyricTime(micros)
    }

    pub fn from_millis(millis: i64) -> (time: LyricTime)
        ensures
            time.micros() == saturate_i64(millis * 1000),
    {
        LyricTime(saturating_mul_i64(millis, 1000))
    }

    pub fn from_secs(seconds: i64) -> (time: LyricTime)
        ensures
            time.micros() == saturate_i64(seconds * 1_000_000),
    {
        LyricTime(saturating_mul_i64(seconds, 1_000_000))
    }

    pub fn as_micros(self) -> (micros: i64)
        ensures
            micros == self.micros(),
    {
        self.0
    }

    pub fn checked_add(self, rhs: LyricTime) -> (sum: Option<LyricTime>)
        ensures
            fits_i64(self.micros() + rhs.micros()) <==> sum.is_some(),
            sum matches Some(s) ==> s.micros() == self.micros() + rhs.micros(),
    {
        match self.0.checked_add(rhs.0) {
            Some(value) => Some(LyricTime(value)),
            None => None,
        }
    }

    pub fn checked_sub(self, rhs: LyricTime) -> (difference: Option<LyricTime>)
        ensures
            fits_i64(self.micros() - rhs.micros()) <==> difference.is_some(),
            difference matches Some(d) ==> d.micros() == self.micros() - rhs.micros(),
    {
        match self.0.checked_sub(rhs.0) {
            Some(value) => Some(LyricTime(value)),
            None => None,
        }
    }

    pub fn saturating_add(self, rhs: LyricTime) -> (sum: LyricTime)
        ensures
            sum.micros() == saturate_i64(self.micros() + rhs.micros()),
    {
        LyricTime(saturating_add_i64(self.0, rhs.0))
    }

    pub fn saturating_sub(self, rhs: LyricTime) -> (difference: LyricTime)
        ensures
            difference.micros() == saturate_i64(self.micros() - rhs.micros()),
    {
        LyricTime(saturating_sub_i64(self.0, rhs.0))
    }

    pub fn abs_diff(self, other: LyricTime) -> (distance: u64)
        ensures
            distance == abs_int(self.micros() - other.micros()),
    {
        abs_diff_i64(self.0, other.0)
    }

    /// The later of two timestamps.
    pub fn later(self, other: LyricTime) -> (latest: LyricTime)
        ensures
            latest == max_time(self, other),
    {
        if self.0 >= other.0 {
            self
        } else {
            other
        }
    }

    /// The earlier of two timestamps.
    pub fn earlier(self, other: LyricTime) -> (earliest: LyricTime)
        ensures
            earliest == min_time(self, other),
    {
        if self.0 <= other.0 {
            self
        } else {
            other
        }
    }

    /// The timestamp written in seconds with six decimals, such as `-1.500000s`.
    pub fn to_seconds_string(&self) -> (text: String)
        ensures
            text@ == seconds_text(self.micros()),
    {
        let negative = self.0 < 0;
        let magnitude = unsigned_abs_i64(self.0);
        let whole = magnitude / 1_000_000;
        let fraction = magnitude % 1_000_000;
        let mut text = String::new();
        if negative {
            proof {
                reveal_strlit("-");
            }
            text.append("-");
        }
        push_decimal_text(&mut text, whole);
        proof {
            reveal_strlit(".");
        }
        text.append(".");
        push_padded(&mut text, fraction, 6);
        proof {
            reveal_strlit("s");
        }
        text.append("s");
        text
    }
}

impl core::ops::Add for LyricTime {
    type Output = LyricTime;

    /// Saturating addition.
    fn add(self, rhs: LyricTime) -> (sum: LyricTime)
        ensures
            sum.micros() == saturate_i64(self.micros() + rhs.micros()),
    {
        self.saturating_add(rhs)
    }
}

impl core::ops::Sub for LyricTime {
    type Output = LyricTime;

    /// Saturating subtraction.
    fn sub(self, rhs: LyricTime) -> (difference: LyricTime)
        ensures
            difference.micros() == saturate_i64(self.micros() - rhs.micros()),
    {
        self.saturating_sub(rhs)
    }
}

impl vstd::std_specs::ops::AddSpecImpl for LyricTime {
    open spec fn obeys_add_spec() -> bool {
        true
    }

    open spec fn add_req(self, rhs: LyricTime) -> bool {
        true
    }

    open spec fn add_spec(self, rhs: LyricTime) -> LyricTime {
        LyricTime(saturate_i64(self.micros() + rhs.micros()) as i64)
    }
}

impl vstd::std_specs::ops::SubSpecImpl for LyricTime {
    open spec fn obeys_sub_spec() -> bool {
        true
    }

    open spec fn sub_req(self, rhs: LyricTime) -> bool {
        true
    }

    open spec fn sub_spec(self, rhs: LyricTime) -> LyricTime {
        LyricTime(saturate_i64(self.micros() - rhs.micros()) as i64)
    }
}

/// Absolute value of a mathematical integer.
pub open spec fn abs_int(value: int) -> int {
    if value < 0 {
        -value
    } else {
        value
    }
}

pub open spec fn max_time(a: LyricTime, b: LyricTime) -> LyricTime {
    if a.0 >= b.0 {
        a
    } else {
        b
    }
}

pub open spec fn min_time(a: LyricTime, b: LyricTime) -> LyricTime {
    if a.0 <= b.0 {
        a
    } else {
        b
    }
}

/// The ASCII digit for `digit`, which is below ten.
pub open spec fn digit_char(digit: int) -> char {
    ((digit + 48) as u8) as char
}

/// The decimal digits of `value`, without leading zeros (`0` is one digit).
pub open spec fn decimal_text(value: nat) -> Seq<char>
    decreases value,
{
    if value < 10 {
        seq![digit_char(value as int)]
    } else {
        decimal_text(value / 10).push(digit_char((value % 10) as int))
    }
}

/// The last `width` decimal digits of `value`, with leading zeros.
pub open spec fn padded_text(value: nat, width: nat) -> Seq<char>
    decreases width,
{
    if width == 0 {
        Seq::empty()
    } else {
        padded_text(value / 10, (width - 1) as nat).push(digit_char((value % 10) as int))
    }
}

/// A timestamp in microseconds written as signed seconds with six decimals and an `s`.
pub open spec fn seconds_text(micros: int) -> Seq<char> {
    let magnitude = abs_int(micros) as nat;
    let sign = if micros < 0 {
        seq!['-']
    } else {
        Seq::empty()
    };
    sign + decimal_text(magnitude / 1_000_000) + seq!['.'] + padded_text(
        magnitude % 1_000_000,
        6,
    ) + seq!['s']
}

fn digit_str(digit: u64) -> (text: &'static str)
    requires
        digit < 10,
    ensures
        text@ == seq![digit_char(digit as int)],
{
    proof {
        reveal_strlit("0");
        reveal_strlit("1");
        reveal_strlit("2");
        reveal_strlit("3");
        reveal_strlit("4");
        reveal_strlit("5");
        reveal_strlit("6");
        reveal_strlit("7");
        reveal_strlit("8");
        reveal_strlit("9");
    }
    if digit == 0 {
        "0"
    } else if digit == 1 {
        "1"
    } else if digit == 2 {
        "2"
    } else if digit == 3 {
        "3"
    } else if digit == 4 {
        "4"
    } else if digit == 5 {
        "5"
    } else if digit == 6 {
        "6"
    } else if digit == 7 {
        "7"
    } else if digit == 8 {
        "8"
    } else {
        "9"
    }
}

pub fn push_decimal_text(text: &mut String, value: u64)
    ensures
        final(text)@ == old(text)@ + decimal_text(value as nat),
    decreases value,
{
    if value >= 10 {
        push_decimal_text(text, value / 10);
    }
    text.append(digit_str(value % 10));
    proof {
        assert(old(text)@ + decimal_text(value as nat) =~= final(text)@) by {
            if value >= 10 {
                assert(decimal_text(value as nat) == decimal_text((value / 10) as nat).push(
                    digit_char((value % 10) as int),
                ));
            }
        }
    }
}

pub(crate) fn push_padded(text: &mut String, value: u64, width: u64)
    ensures
        final(text)@ == old(text)@ + padded_text(value as nat, width as nat),
    decreases width,
{
    if width > 0 {
        push_padded(text, value / 10, width - 1);
        text.append(digit_str(value % 10));
        proof {
            assert(old(text)@ + padded_text(value as nat, width as nat) =~= final(text)@);
        }
    } else {
        proof {
            assert(old(text)@ + padded_text(value as nat, width as nat) =~= final(text)@);
        }
    }
}

/// `a * b` clamped into the range of an `i64`.
pub fn saturating_mul_i64(a: i64, b: i64) -> (product: i64)
    ensures
        product == saturate_i64(a * b),
{
    match a.checked_mul(b) {
        Some(value) => value,
        None => {
            if (a < 0) == (b < 0) {
                proof {
                    if a >= 0 {
                        assert(a * b >= 0) by (nonlinear_arith)
                            requires
                                a >= 0,
                                b >= 0,
                        ;
                    } else {
                        assert(a * b > 0) by (nonlinear_arith)
                            requires
                                a < 0,
                                b < 0,
                        ;
                    }
                }
                i64::MAX
            } else {
                proof {
                    if a < 0 {
                        assert(a * b <= 0) by (nonlinear_arith)
                            requires
                                a < 0,
                                b >= 0,
                        ;
                    } else {
                        assert(a * b <= 0) by (nonlinear_arith)
                            requires
                                a >= 0,
                                b < 0,
                        ;
                    }
                }
                i64::MIN
            }
        },
    }
}

/// `a + b` clamped into the range of an `i64`.
pub fn saturating_add_i64(a: i64, b: i64) -> (sum: i64)
    ensures
        sum == saturate_i64(a + b),
{
    match a.checked_add(b) {
        Some(value) => value,
        None => if b > 0 {
            i64::MAX
        } else {
            i64::MIN
        },
    }
}

/// `a - b` clamped into the range of an `i64`.
pub fn saturating_sub_i64(a: i64, b: i64) -> (difference: i64)
    ensures
        difference == saturate_i64(a - b),
{
    match a.checked_sub(b) {
        Some(value) => value,
        None => if b < 0 {
            i64::MAX
        } else {
            i64::MIN
        },
    }
}

/// `|a - b|`, which always fits in a `u64`.
pub fn abs_diff_i64(a: i64, b: i64) -> (distance: u64)
    ensures
        distance == abs_int(a - b),
{
    if a >= b {
        let wide = (a as i128) - (b as i128);
        wide as u64
    } else {
        let wide = (b as i128) - (a as i128);
        wide as u64
    }
}

/// `|value|`, which always fits in a `u64`.
pub fn unsigned_abs_i64(value: i64) -> (magnitude: u64)
    ensures
        magnitude == abs_int(value as int),
{
    if value >= 0 {
        value as u64
    } else {
        let wide = -(value as i128);
        wide as u64
    }
}

/// A span of media time; `end` is exclusive and `None` leaves it open.
#[derive(Clone, Copy, Debug, Default, PartialEq, Eq, Hash, Structural)]
pub struct TimeRange {
    pub start: LyricTime,
    pub end: Option<LyricTime>,
}

impl TimeRange {
    /// Whether `position` lies in the range: at or after the start and before the end.
    pub open spec fn holds(self, position: LyricTime) -> bool {
        &&& self.start.0 <= position.0
        &&& (self.end matches Some(end) ==> position.0 < end.0)
    }

    /// Whether the end, when there is one, does not precede the start.
    pub open spec fn well_ordered(self) -> bool {
        self.end matches Some(end) ==> self.start.0 <= end.0
    }

    pub fn new(start: LyricTime, end: Option<LyricTime>) -> (range: TimeRange)
        ensures
            range.start == start,
            range.end == end,
    {
        TimeRange { start, end }
    }

    pub fn contains(self, position: LyricTime) -> (inside: bool)
        ensures
            inside == self.holds(position),
    {
        self.start.0 <= position.0 && match self.end {
            Some(end) => position.0 < end.0,
            None => true,
        }
    }

    pub fn is_valid(self) -> (valid: bool)
        ensures
            valid == self.well_ordered(),
    {
        match self.end {
            Some(end) => self.start.0 <= end.0,
            None => true,
        }
    }

    pub fn duration(self) -> (length: Option<LyricTime>)
        ensures
            self.end.is_none() ==> length.is_none(),
            self.end matches Some(end) ==> length matches Some(d) && d.micros() == saturate_i64(
                end.micros() - self.start.micros(),
            ),
    {
        match self.end {
            Some(end) => Some(end.saturating_sub(self.start)),
            None => None,
        }
    }
}

} // verus!
