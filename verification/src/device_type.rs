//! The device type classifier: a decimal number with white space around it.

use vstd::prelude::*;

verus! {

/// The classifier of direct-access storage, the only class that is tracked.
pub const DIRECT_ACCESS: i32 = 0;

/// The classifier of optical drives.
pub const OPTICAL: i32 = 5;

/// Whether `c` is white space as Unicode defines it (`White_Space`).
pub open spec fn is_white_space(c: char) -> bool {
    let n = c as u32;
    ||| 0x09 <= n <= 0x0D
    ||| n == 0x20
    ||| n == 0x85
    ||| n == 0xA0
    ||| n == 0x1680
    ||| 0x2000 <= n <= 0x200A
    ||| n == 0x2028
    ||| n == 0x2029
    ||| n == 0x202F
    ||| n == 0x205F
    ||| n == 0x3000
}

/// `s` without the white space it begins with.
pub open spec fn trim_start(s: Seq<char>) -> Seq<char>
    decreases s.len(),
{
    if s.len() > 0 && is_white_space(s.first()) {
        trim_start(s.drop_first())
    } else {
        s
    }
}

/// `s` without the white space it ends with.
pub open spec fn trim_end(s: Seq<char>) -> Seq<char>
    decreases s.len(),
{
    if s.len() > 0 && is_white_space(s.last()) {
        trim_end(s.drop_last())
    } else {
        s
    }
}

/// `s` without the white space at either end.
pub open spec fn trimmed(s: Seq<char>) -> Seq<char> {
    trim_end(trim_start(s))
}

/// Whether `c` is one of the ten decimal digits.
pub open spec fn is_digit(c: char) -> bool {
    '0' as u32 <= c as u32 <= '9' as u32
}

/// Whether `s` holds decimal digits only.
pub open spec fn all_digits(s: Seq<char>) -> bool {
    forall|i: int| 0 <= i < s.len() ==> is_digit(#[trigger] s[i])
}

/// The number that the decimal digits `s` write, the empty sequence writing zero.
pub open spec fn digits_value(s: Seq<char>) -> int
    decreases s.len(),
{
    if s.len() == 0 {
        0
    } else {
        10 * digits_value(s.drop_last()) + (s.last() as u32 - '0' as u32)
    }
}

/// The digits of a signed decimal: `s` without one leading `+` or `-`.
pub open spec fn unsigned_part(s: Seq<char>) -> Seq<char> {
    if s.len() > 0 && (s.first() == '-' || s.first() == '+') {
        s.drop_first()
    } else {
        s
    }
}

/// Whether a signed decimal begins with `-`.
pub open spec fn is_negative(s: Seq<char>) -> bool {
    s.len() > 0 && s.first() == '-'
}

/// The number that `s` writes: an optional sign, then at least one decimal digit and
/// nothing else. There is none where `s` has another shape or the number does not fit in
/// 32 bits.
pub open spec fn parse_decimal(s: Seq<char>) -> Option<i32> {
    let digits = unsigned_part(s);
    let value = if is_negative(s) {
        -digits_value(digits)
    } else {
        digits_value(digits)
    };
    if digits.len() > 0 && all_digits(digits) && i32::MIN <= value <= i32::MAX {
        Some(value as i32)
    } else {
        None
    }
}

/// The device type that a classifier file with the contents `text` gives.
pub open spec fn device_type_of(text: Seq<char>) -> Option<i32> {
    parse_decimal(trimmed(text))
}

/// Tells whether `c` is white space.
pub fn white_space(c: char) -> (b: bool)
    ensures
        b == is_white_space(c),
{
    let n: u32 = c as u32;
    (0x09 <= n && n <= 0x0D) || n == 0x20 || n == 0x85 || n == 0xA0 || n == 0x1680 || (0x2000 <= n
        && n <= 0x200A) || n == 0x2028 || n == 0x2029 || n == 0x202F || n == 0x205F || n == 0x3000
}

/// The digits before any place of a number make up a number that is not larger.
proof fn lemma_digits_value_grows(s: Seq<char>, k: int)
    requires
        all_digits(s),
        0 <= k <= s.len(),
    ensures
        0 <= digits_value(s.subrange(0, k)) <= digits_value(s),
    decreases s.len(),
{
    if k == s.len() {
        assert(s.subrange(0, k) =~= s);
        if s.len() > 0 {
            lemma_digits_value_grows(s.drop_last(), k - 1);
        }
    } else {
        assert(s.drop_last().subrange(0, k) =~= s.subrange(0, k));
        lemma_digits_value_grows(s.drop_last(), k);
    }
}

/// The characters of `text`, in order.
fn chars_of(text: &str) -> (chars: Vec<char>)
    ensures
        chars@ == text@,
{
    let mut chars: Vec<char> = Vec::new();
    for c in it: text.chars()
        invariant
            chars@ == it.seq().take(it.index() as int),
            it.seq() == text@,
    {
        chars.push(c);
    }
    chars
}

/// Where the text without the white space at either end begins and ends.
fn trim_bounds(chars: &Vec<char>) -> (bounds: (usize, usize))
    ensures
        bounds.0 <= bounds.1 <= chars.len(),
        chars@.subrange(bounds.0 as int, bounds.1 as int) == trimmed(chars@),
{
    let len = chars.len();
    let mut start: usize = 0;
    assert(chars@.subrange(0, len as int) =~= chars@);
    while start < len && white_space(chars[start])
        invariant
            start <= len == chars.len(),
            trim_start(chars@) == trim_start(chars@.subrange(start as int, len as int)),
        decreases len - start,
    {
        assert(chars@.subrange(start as int, len as int).drop_first() =~= chars@.subrange(
            start + 1,
            len as int,
        ));
        start += 1;
    }
    let ghost rest = chars@.subrange(start as int, len as int);
    let mut end: usize = len;
    while end > start && white_space(chars[end - 1])
        invariant
            start <= end <= len == chars.len(),
            rest == chars@.subrange(start as int, len as int),
            trim_end(rest) == trim_end(chars@.subrange(start as int, end as int)),
        decreases end,
    {
        assert(chars@.subrange(start as int, end as int).drop_last() =~= chars@.subrange(
            start as int,
            end - 1,
        ));
        end -= 1;
    }
    (start, end)
}

/// Reads a signed decimal from `chars[start..end]`.
fn parse_range(chars: &Vec<char>, start: usize, end: usize) -> (r: Option<i32>)
    requires
        start <= end <= chars.len(),
    ensures
        r == parse_decimal(chars@.subrange(start as int, end as int)),
{
    let ghost s = chars@.subrange(start as int, end as int);
    let mut negative = false;
    let mut first: usize = start;
    if start < end && (chars[start] == '-' || chars[start] == '+') {
        negative = chars[start] == '-';
        first = start + 1;
    }
    let ghost digits = chars@.subrange(first as int, end as int);
    assert(digits =~= unsigned_part(s));
    assert(negative == is_negative(s));
    if first == end {
        return None;
    }
    let mut magnitude: u64 = 0;
    let mut at: usize = first;
    while at < end
        invariant
            start <= first <= at <= end <= chars.len(),
            first < end,
            s == chars@.subrange(start as int, end as int),
            digits == chars@.subrange(first as int, end as int),
            digits == unsigned_part(s),
            negative == is_negative(s),
            all_digits(digits.subrange(0, at - first)),
            magnitude == digits_value(digits.subrange(0, at - first)),
            magnitude <= 0x8000_0000,
        decreases end - at,
    {
        let c: u32 = chars[at] as u32;
        if c < '0' as u32 || c > '9' as u32 {
            assert(!is_digit(digits[at - first]));
            return None;
        }
        let next: u64 = magnitude * 10 + (c - '0' as u32) as u64;
        proof {
            let longer = digits.subrange(0, at - first + 1);
            assert(longer.drop_last() =~= digits.subrange(0, at - first));
            assert(longer.last() == digits[at - first]);
            assert(next == digits_value(longer));
            assert forall|i: int| 0 <= i < longer.len() implies is_digit(#[trigger] longer[i]) by {
                if i < at - first {
                    assert(longer[i] == digits.subrange(0, at - first)[i]);
                }
            }
        }
        if next > 0x8000_0000 {
            proof {
                if all_digits(digits) {
                    lemma_digits_value_grows(digits, at - first + 1);
                }
            }
            return None;
        }
        magnitude = next;
        at += 1;
    }
    assert(digits.subrange(0, at - first) =~= digits);
    if negative {
        Some((-(magnitude as i64)) as i32)
    } else if magnitude == 0x8000_0000 {
        None
    } else {
        Some(magnitude as i32)
    }
}

/// Reads the device type from the contents of a classifier file: a decimal number, with
/// or without a sign, that fits in 32 bits, and white space around it.
pub fn parse_device_type(text: &str) -> (r: Option<i32>)
    ensures
        r == device_type_of(text@),
{
    let chars = chars_of(text);
    let (start, end) = trim_bounds(&chars);
    parse_range(&chars, start, end)
}

} // verus!
