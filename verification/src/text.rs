//! Character-level helpers: UTF-8 widths, whitespace, ASCII case and building strings.

use vstd::prelude::*;
use vstd::std_specs::iter::IteratorSpec;

verus! {

broadcast use {vstd::string::axiom_spec_iter, vstd::string::next_postcondition};

/// `String::push` appends one character.
pub assume_specification[ String::push ](string: &mut String, ch: char)
    ensures
        final(string)@ == old(string)@.push(ch),
;

/// The number of bytes in the UTF-8 encoding of `c`.
pub open spec fn utf8_width(c: char) -> nat {
    if (c as u32) < 0x80 {
        1
    } else if (c as u32) < 0x800 {
        2
    } else if (c as u32) < 0x10000 {
        3
    } else {
        4
    }
}

/// The number of bytes in the UTF-8 encoding of `chars`.
pub open spec fn byte_len(chars: Seq<char>) -> nat
    decreases chars.len(),
{
    if chars.len() == 0 {
        0
    } else {
        byte_len(chars.drop_last()) + utf8_width(chars.last())
    }
}

/// Whether `offset` is a byte offset in the UTF-8 encoding of `chars` at which a
/// character starts, or the end of the encoding.
pub open spec fn is_boundary(chars: Seq<char>, offset: int) -> bool {
    exists|k: int| 0 <= k <= chars.len() && #[trigger] byte_len(chars.take(k)) == offset
}

pub proof fn lemma_byte_len_concat(a: Seq<char>, b: Seq<char>)
    ensures
        byte_len(a + b) == byte_len(a) + byte_len(b),
    decreases b.len(),
{
    if b.len() > 0 {
        lemma_byte_len_concat(a, b.drop_last());
        assert((a + b).drop_last() =~= a + b.drop_last());
    } else {
        assert(a + b =~= a);
    }
}

pub proof fn lemma_byte_len_push(a: Seq<char>, c: char)
    ensures
        byte_len(a.push(c)) == byte_len(a) + utf8_width(c),
{
    assert(a.push(c).drop_last() =~= a);
}

/// Byte lengths of prefixes grow strictly with the prefix.
pub proof fn lemma_byte_len_prefix_monotonic(chars: Seq<char>, i: int, j: int)
    requires
        0 <= i <= j <= chars.len(),
    ensures
        byte_len(chars.take(i)) + (j - i) <= byte_len(chars.take(j)),
    decreases j - i,
{
    if i < j {
        lemma_byte_len_prefix_monotonic(chars, i, j - 1);
        assert(chars.take(j).drop_last() =~= chars.take(j - 1));
    }
}

/// `char::len_utf8`.
pub fn char_width(c: char) -> (width: usize)
    ensures
        width == utf8_width(c),
{
    let value = c as u32;
    if value < 0x80 {
        1
    } else if value < 0x800 {
        2
    } else if value < 0x10000 {
        3
    } else {
        4
    }
}

/// The characters of `s`, in order.
pub fn chars_of(s: &str) -> (chars: Vec<char>)
    ensures
        chars@ == s@,
{
    let mut iter = s.chars();
    let mut chars: Vec<char> = Vec::new();
    loop
        invariant
            chars@ + iter.remaining() == s@,
            iter.obeys_prophetic_iter_laws(),
            iter.decrease() is Some,
        decreases iter.decrease()->0,
    {
        let ghost before = iter.remaining();
        match iter.next() {
            Some(c) => {
                chars.push(c);
                proof {
                    assert(chars@ + iter.remaining() =~= s@) by {
                        assert(before =~= seq![c] + before.drop_first());
                    }
                }
            },
            None => {
                proof {
                    assert(chars@ =~= s@);
                }
                return chars;
            },
        }
    }
}

/// A string holding `chars[start..end]`.
pub fn string_from_range(chars: &Vec<char>, start: usize, end: usize) -> (text: String)
    requires
        start <= end <= chars.len(),
    ensures
        text@ == chars@.subrange(start as int, end as int),
{
    let mut text = String::new();
    let mut i = start;
    while i < end
        invariant
            start <= i <= end <= chars.len(),
            text@ == chars@.subrange(start as int, i as int),
        decreases end - i,
    {
        text.push(chars[i]);
        proof {
            assert(text@ =~= chars@.subrange(start as int, i + 1));
        }
        i += 1;
    }
    text
}

/// Appends `chars[start..end]` to `text`.
pub fn push_range(text: &mut String, chars: &Vec<char>, start: usize, end: usize)
    requires
        start <= end <= chars.len(),
    ensures
        final(text)@ == old(text)@ + chars@.subrange(start as int, end as int),
{
    let mut i = start;
    while i < end
        invariant
            start <= i <= end <= chars.len(),
            text@ == old(text)@ + chars@.subrange(start as int, i as int),
        decreases end - i,
    {
        text.push(chars[i]);
        proof {
            assert(text@ =~= old(text)@ + chars@.subrange(start as int, i + 1));
        }
        i += 1;
    }
}

/// Unicode `White_Space`, as `char::is_whitespace` decides it.
pub open spec fn is_white(c: char) -> bool {
    let v = c as u32;
    (0x09 <= v <= 0x0d) || v == 0x20 || v == 0x85 || v == 0xa0 || v == 0x1680 || (0x2000 <= v
        <= 0x200a) || v == 0x2028 || v == 0x2029 || v == 0x202f || v == 0x205f || v == 0x3000
}

pub fn is_whitespace(c: char) -> (white: bool)
    ensures
        white == is_white(c),
{
    let v = c as u32;
    (0x09 <= v && v <= 0x0d) || v == 0x20 || v == 0x85 || v == 0xa0 || v == 0x1680 || (0x2000 <= v
        && v <= 0x200a) || v == 0x2028 || v == 0x2029 || v == 0x202f || v == 0x205f || v == 0x3000
}

/// Whether every character of `chars` is whitespace, i.e. `trim()` leaves nothing.
pub open spec fn is_blank(chars: Seq<char>) -> bool {
    forall|i: int| 0 <= i < chars.len() ==> is_white(#[trigger] chars[i])
}

/// Whether `chars[start..end]` is blank.
pub fn range_is_blank(chars: &Vec<char>, start: usize, end: usize) -> (blank: bool)
    requires
        start <= end <= chars.len(),
    ensures
        blank == is_blank(chars@.subrange(start as int, end as int)),
{
    let mut i = start;
    while i < end
        invariant
            start <= i <= end <= chars.len(),
            is_blank(chars@.subrange(start as int, i as int)),
        decreases end - i,
    {
        if !is_whitespace(chars[i]) {
            assert(chars@.subrange(start as int, end as int)[i - start] == chars@[i as int]);
            return false;
        }
        assert forall|k: int| 0 <= k < i + 1 - start implies is_white(
            #[trigger] chars@.subrange(start as int, i + 1)[k],
        ) by {
            if k < i - start {
                assert(chars@.subrange(start as int, i + 1)[k] == chars@.subrange(
                    start as int,
                    i as int,
                )[k]);
            }
        }
        i += 1;
    }
    true
}

/// Whether the whole string is blank.
pub fn str_is_blank(s: &str) -> (blank: bool)
    ensures
        blank == is_blank(s@),
{
    let chars = chars_of(s);
    let blank = range_is_blank(&chars, 0, chars.len());
    assert(chars@.subrange(0, chars@.len() as int) =~= chars@);
    blank
}

/// The index of the first non-whitespace character of `chars[start..end]`, or `end`.
pub open spec fn trim_start_index(chars: Seq<char>, start: int, end: int) -> int
    decreases end - start,
{
    if start >= end {
        end
    } else if is_white(chars[start]) {
        trim_start_index(chars, start + 1, end)
    } else {
        start
    }
}

/// The index after the last non-whitespace character of `chars[start..end]`, or `start`.
pub open spec fn trim_end_index(chars: Seq<char>, start: int, end: int) -> int
    decreases end - start,
{
    if start >= end {
        start
    } else if is_white(chars[end - 1]) {
        trim_end_index(chars, start, end - 1)
    } else {
        end
    }
}

pub proof fn lemma_trim_start_bounds(chars: Seq<char>, start: int, end: int)
    requires
        start <= end,
    ensures
        start <= trim_start_index(chars, start, end) <= end,
    decreases end - start,
{
    if start < end && is_white(chars[start]) {
        lemma_trim_start_bounds(chars, start + 1, end);
    }
}

pub proof fn lemma_trim_end_bounds(chars: Seq<char>, start: int, end: int)
    requires
        start <= end,
    ensures
        start <= trim_end_index(chars, start, end) <= end,
    decreases end - start,
{
    if start < end && is_white(chars[end - 1]) {
        lemma_trim_end_bounds(chars, start, end - 1);
    }
}

/// The bounds of `chars[start..end]` once leading and trailing whitespace is removed.
pub fn trim_bounds(chars: &Vec<char>, start: usize, end: usize) -> (bounds: (usize, usize))
    requires
        start <= end <= chars.len(),
    ensures
        bounds.0 == trim_start_index(chars@, start as int, end as int),
        bounds.1 == trim_end_index(chars@, bounds.0 as int, end as int),
        start <= bounds.0 <= bounds.1 <= end,
{
    let mut low = start;
    while low < end && is_whitespace(chars[low])
        invariant
            start <= low <= end <= chars.len(),
            trim_start_index(chars@, low as int, end as int) == trim_start_index(
                chars@,
                start as int,
                end as int,
            ),
        decreases end - low,
    {
        low += 1;
    }
    let mut high = end;
    while high > low && is_whitespace(chars[high - 1])
        invariant
            low <= high <= end <= chars.len(),
            trim_end_index(chars@, low as int, high as int) == trim_end_index(
                chars@,
                low as int,
                end as int,
            ),
        decreases high - low,
    {
        high -= 1;
    }
    (low, high)
}

/// ASCII lower-casing of one character; other characters are kept.
pub open spec fn ascii_lower(c: char) -> char {
    if 'A' <= c <= 'Z' {
        ((c as u32) + 32) as char
    } else {
        c
    }
}

pub fn to_ascii_lower(c: char) -> (lower: char)
    ensures
        lower == ascii_lower(c),
{
    if 'A' <= c && c <= 'Z' {
        ((c as u8) + 32) as char
    } else {
        c
    }
}

/// Whether `a` and `b` are equal once ASCII letters are lower-cased.
pub open spec fn same_ignoring_ascii_case(a: Seq<char>, b: Seq<char>) -> bool {
    &&& a.len() == b.len()
    &&& forall|i: int| 0 <= i < a.len() ==> ascii_lower(#[trigger] a[i]) == ascii_lower(b[i])
}

/// `chars[start..end]` compared with `other`, ignoring ASCII case.
pub fn range_eq_ignore_ascii_case(chars: &Vec<char>, start: usize, end: usize, other: &Vec<char>) -> (same: bool)
    requires
        start <= end <= chars.len(),
    ensures
        same == same_ignoring_ascii_case(chars@.subrange(start as int, end as int), other@),
{
    if end - start != other.len() {
        return false;
    }
    let mut i: usize = 0;
    while i < other.len()
        invariant
            end - start == other.len(),
            start <= end <= chars.len(),
            0 <= i <= other.len(),
            forall|k: int|
                0 <= k < i ==> ascii_lower(#[trigger] chars@[start + k]) == ascii_lower(other@[k]),
        decreases other.len() - i,
    {
        if to_ascii_lower(chars[start + i]) != to_ascii_lower(other[i]) {
            assert(chars@.subrange(start as int, end as int)[i as int] == chars@[start + i]);
            return false;
        }
        i += 1;
    }
    assert forall|k: int| 0 <= k < other.len() implies ascii_lower(
        #[trigger] chars@.subrange(start as int, end as int)[k],
    ) == ascii_lower(other@[k]) by {
        assert(chars@.subrange(start as int, end as int)[k] == chars@[start + k]);
    }
    true
}

/// Whether every character of `chars` is an ASCII digit.
pub open spec fn all_digits(chars: Seq<char>) -> bool {
    forall|i: int| 0 <= i < chars.len() ==> '0' <= #[trigger] chars[i] <= '9'
}

/// The first index in `[start, end)` holding `c`, if any.
pub open spec fn find_from(chars: Seq<char>, c: char, start: int, end: int) -> Option<int>
    decreases end - start,
{
    if start >= end {
        None
    } else if chars[start] == c {
        Some(start)
    } else {
        find_from(chars, c, start + 1, end)
    }
}

pub proof fn lemma_find_from(chars: Seq<char>, c: char, start: int, end: int)
    requires
        0 <= start <= end <= chars.len(),
    ensures
        find_from(chars, c, start, end) matches Some(i) ==> start <= i < end && chars[i] == c
            && forall|k: int| start <= k < i ==> chars[k] != c,
        find_from(chars, c, start, end) is None ==> forall|k: int| start <= k < end ==> chars[k] != c,
    decreases end - start,
{
    if start < end && chars[start] != c {
        lemma_find_from(chars, c, start + 1, end);
    }
}

/// `chars[start..end].find(c)`, as an absolute index.
pub fn find_char(chars: &Vec<char>, c: char, start: usize, end: usize) -> (found: Option<usize>)
    requires
        start <= end <= chars.len(),
    ensures
        found matches Some(i) ==> find_from(chars@, c, start as int, end as int) == Some(i as int),
        found is None ==> find_from(chars@, c, start as int, end as int) is None,
{
    let mut i = start;
    while i < end
        invariant
            start <= i <= end <= chars.len(),
            find_from(chars@, c, i as int, end as int) == find_from(
                chars@,
                c,
                start as int,
                end as int,
            ),
        decreases end - i,
    {
        if chars[i] == c {
            return Some(i);
        }
        i += 1;
    }
    None
}

} // verus!
