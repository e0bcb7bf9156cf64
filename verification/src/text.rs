//! Reading numbers out of text: whole numbers, and decimal numbers as
//! fixed-point values.

use vstd::prelude::*;
use vstd::std_specs::iter::IteratorSpec;

verus! {

/// Whether a character is a decimal digit.
pub open spec fn is_digit(c: char) -> bool {
    '0' <= c <= '9'
}

/// The value of a decimal digit.
pub open spec fn digit_of(c: char) -> int {
    c as u32 - '0' as u32
}

/// Whether a text is made of decimal digits only.
pub open spec fn all_digits(s: Seq<char>) -> bool {
    forall|i: int| 0 <= i < s.len() ==> is_digit(#[trigger] s[i])
}

/// The number that a run of decimal digits writes; 0 for the empty run.
pub open spec fn digits_value(s: Seq<char>) -> int
    decreases s.len(),
{
    if s.len() == 0 {
        0
    } else {
        digits_value(s.drop_last()) * 10 + digit_of(s.last())
    }
}

/// Whether a text starts with a sign.
pub open spec fn has_sign(text: Seq<char>) -> bool {
    text.len() > 0 && (text[0] == '+' || text[0] == '-')
}

/// The whole number a text writes: an optional sign and one digit or more.
pub open spec fn integer_value(text: Seq<char>) -> Option<int> {
    let body = if has_sign(text) {
        text.skip(1)
    } else {
        text
    };
    if body.len() > 0 && all_digits(body) {
        if has_sign(text) && text[0] == '-' {
            Some(-digits_value(body))
        } else {
            Some(digits_value(body))
        }
    } else {
        None
    }
}

/// The number without sign a text writes: an optional `+` and one digit or
/// more.
pub open spec fn unsigned_value(text: Seq<char>) -> Option<int> {
    if has_sign(text) && text[0] == '-' {
        None
    } else {
        integer_value(text)
    }
}

/// Whether a character is a hexadecimal digit, in either case.
pub open spec fn is_hex_digit(c: char) -> bool {
    is_digit(c) || 'a' <= c <= 'f' || 'A' <= c <= 'F'
}

/// The value of a hexadecimal digit.
pub open spec fn hex_digit_of(c: char) -> int {
    if is_digit(c) {
        c as u32 - '0' as u32
    } else if 'a' <= c <= 'f' {
        c as u32 - 'a' as u32 + 10
    } else {
        c as u32 - 'A' as u32 + 10
    }
}

/// Whether a text is made of hexadecimal digits only.
pub open spec fn all_hex_digits(s: Seq<char>) -> bool {
    forall|i: int| 0 <= i < s.len() ==> is_hex_digit(#[trigger] s[i])
}

/// The number that a run of hexadecimal digits writes; 0 for the empty
/// run.
pub open spec fn hex_value(s: Seq<char>) -> int
    decreases s.len(),
{
    if s.len() == 0 {
        0
    } else {
        hex_value(s.drop_last()) * 16 + hex_digit_of(s.last())
    }
}

/// The whole number a text writes in hexadecimal digits: an optional sign
/// and one digit or more.
pub open spec fn hex_integer_value(text: Seq<char>) -> Option<int> {
    let body = if has_sign(text) {
        text.skip(1)
    } else {
        text
    };
    if body.len() > 0 && all_hex_digits(body) {
        if has_sign(text) && text[0] == '-' {
            Some(-hex_value(body))
        } else {
            Some(hex_value(body))
        }
    } else {
        None
    }
}

/// Whether a text starts with `0x`.
pub open spec fn has_hex_prefix(text: Seq<char>) -> bool {
    text.len() >= 2 && text[0] == '0' && text[1] == 'x'
}

/// The whole number a field writes: after `0x` a number in hexadecimal
/// digits, sign and all; else a number in decimal digits.
pub open spec fn whole_number(text: Seq<char>) -> Option<int> {
    if has_hex_prefix(text) {
        hex_integer_value(text.skip(2))
    } else {
        integer_value(text)
    }
}

/// A whole number as one of 32 bits, where it is one.
pub open spec fn in_i32(number: Option<int>) -> Option<i32> {
    match number {
        Some(v) => if i32::MIN <= v <= i32::MAX {
            Some(v as i32)
        } else {
            None
        },
        None => None,
    }
}

/// The index at which the run of digits that starts at `from` ends.
pub open spec fn digits_end(text: Seq<char>, from: int) -> int
    decreases text.len() - from,
{
    if 0 <= from < text.len() && is_digit(text[from]) {
        digits_end(text, from + 1)
    } else {
        from
    }
}

/// The first `k` digits of a run, with zeros where the run has ended.
pub open spec fn pad_take(digits: Seq<char>, k: int) -> Seq<char> {
    if k <= 0 {
        Seq::empty()
    } else {
        Seq::new(
            k as nat,
            |i: int|
                if i < digits.len() {
                    digits[i]
                } else {
                    '0'
                },
        )
    }
}

/// The power of ten that the tail of a decimal number writes: none for an
/// empty tail, else `e` or `E`, an optional sign and one to three digits.
pub open spec fn exponent_value(tail: Seq<char>) -> Option<int> {
    if tail.len() == 0 {
        Some(0)
    } else if tail[0] == 'e' || tail[0] == 'E' {
        let body = tail.skip(1);
        let digits = if has_sign(body) {
            body.skip(1)
        } else {
            body
        };
        if 1 <= digits.len() <= 3 && all_digits(digits) {
            if has_sign(body) && body[0] == '-' {
                Some(-digits_value(digits))
            } else {
                Some(digits_value(digits))
            }
        } else {
            None
        }
    } else {
        None
    }
}

/// The parts of a decimal number: where the whole digits, the fraction
/// digits and the tail start and end.
pub struct DecimalParts {
    pub whole_from: int,
    pub whole_to: int,
    pub fraction_from: int,
    pub fraction_to: int,
}

/// The parts of a text read as a decimal number: after an optional sign the
/// longest run of digits, then, after a point if there is one, the longest
/// run of digits again.
pub open spec fn decimal_parts(text: Seq<char>) -> DecimalParts {
    let whole_from: int = if has_sign(text) {
        1
    } else {
        0
    };
    let whole_to = digits_end(text, whole_from);
    let fraction_from = if whole_to < text.len() && text[whole_to] == '.' {
        whole_to + 1
    } else {
        whole_to
    };
    DecimalParts {
        whole_from,
        whole_to,
        fraction_from,
        fraction_to: digits_end(text, fraction_from),
    }
}

/// Whether a digit other than zero stands at `from` or after it.
pub open spec fn nonzero_from(digits: Seq<char>, from: int) -> bool {
    exists|i: int| from <= i && 0 <= i < digits.len() && #[trigger] digits[i] != '0'
}

/// The digits of a decimal number: the whole ones, then those of the
/// fraction.
pub open spec fn mantissa_of(text: Seq<char>) -> Seq<char> {
    let parts = decimal_parts(text);
    text.subrange(parts.whole_from, parts.whole_to) + text.subrange(
        parts.fraction_from,
        parts.fraction_to,
    )
}

/// The decimal number a text writes, in units of one in `10^places`,
/// rounded away from zero: a sign if any, digits with at most one point
/// among or beside them, and a power of ten if any. With `w` whole digits
/// and the power `e`, the first `w + e + places` digits, whole ones first,
/// make the number, zeros following where the digits run out; it is one
/// more where a digit other than zero is left out, so that only zero reads
/// as zero. A magnitude above `limit` is no number here.
pub open spec fn decimal_value(text: Seq<char>, places: int, limit: int) -> Option<int> {
    let parts = decimal_parts(text);
    let mantissa = mantissa_of(text);
    if mantissa.len() == 0 {
        None
    } else {
        match exponent_value(text.skip(parts.fraction_to)) {
            None => None,
            Some(e) => {
                let keep = parts.whole_to - parts.whole_from + e + places;
                let magnitude = digits_value(pad_take(mantissa, keep)) + if nonzero_from(
                    mantissa,
                    keep,
                ) {
                    1int
                } else {
                    0int
                };
                if magnitude > limit {
                    None
                } else if has_sign(text) && text[0] == '-' {
                    Some(-magnitude)
                } else {
                    Some(magnitude)
                }
            },
        }
    }
}

/// Appending a digit multiplies by ten and adds it.
pub proof fn lemma_digits_push(s: Seq<char>, c: char)
    ensures
        digits_value(s.push(c)) == digits_value(s) * 10 + digit_of(c),
{
    assert(s.push(c).drop_last() =~= s);
}

/// A run of digits writes no less than any of its beginnings, and nothing
/// below zero.
pub proof fn lemma_digits_grow(s: Seq<char>, i: int)
    requires
        all_digits(s),
        0 <= i <= s.len(),
    ensures
        0 <= digits_value(s.take(i)) <= digits_value(s),
    decreases s.len(),
{
    if s.len() == 0 {
        assert(s.take(i) =~= s);
    } else if i == s.len() {
        assert(s.take(i) =~= s);
        lemma_digits_grow(s.drop_last(), i - 1);
        assert(is_digit(s.last()));
    } else {
        assert(s.drop_last().take(i) =~= s.take(i));
        assert(forall|j: int| 0 <= j < s.drop_last().len() ==> s.drop_last()[j] == s[j]);
        lemma_digits_grow(s.drop_last(), i);
        lemma_digits_grow(s.drop_last(), s.len() - 1);
        assert(s.drop_last().take(s.len() - 1) =~= s.drop_last());
        assert(is_digit(s.last()));
    }
}

/// The run of digits from `from` ends within the text, holds digits only,
/// and stops at a character that is none.
pub proof fn lemma_digits_end(text: Seq<char>, from: int)
    requires
        0 <= from <= text.len(),
    ensures
        from <= digits_end(text, from) <= text.len(),
        all_digits(text.subrange(from, digits_end(text, from))),
        digits_end(text, from) < text.len() ==> !is_digit(text[digits_end(text, from)]),
    decreases text.len() - from,
{
    if from < text.len() && is_digit(text[from]) {
        lemma_digits_end(text, from + 1);
        let end = digits_end(text, from);
        assert forall|i: int| 0 <= i < end - from implies is_digit(
            #[trigger] text.subrange(from, end)[i],
        ) by {
            if i > 0 {
                assert(text.subrange(from + 1, end)[i - 1] == text[from + i]);
            }
        }
    }
}

/// The characters of a text.
pub fn chars_of(text: &str) -> (chars: Vec<char>)
    ensures
        chars@ == text@,
{
    broadcast use vstd::string::group_string_axioms;

    let mut chars: Vec<char> = Vec::new();
    let letters = text.chars();
    for c in it: letters
        invariant
            it.seq() == text@,
            chars@ == it.seq().take(it.index() as int),
    {
        proof {
            assert(it.seq().take(it.index() + 1) =~= it.seq().take(it.index() as int).push(c));
        }
        chars.push(c);
    }
    proof {
        assert(text@.take(text@.len() as int) =~= text@);
    }
    chars
}

/// The value of the digit `c`, if it is one.
pub fn digit(c: char) -> (d: Option<u8>)
    ensures
        d matches Some(v) ==> is_digit(c) && v == digit_of(c) && v <= 9,
        d is None ==> !is_digit(c),
{
    if '0' <= c && c <= '9' {
        Some((c as u32 - '0' as u32) as u8)
    } else {
        None
    }
}

/// The number that the characters from `from` to `to` write, where they
/// are digits and the number is at most `limit`.
fn digits_number(chars: &Vec<char>, from: usize, to: usize, limit: u64) -> (number: Option<u64>)
    requires
        from <= to <= chars.len(),
        limit <= 1_000_000_000_000_000_000,
    ensures
        number matches Some(m) ==> all_digits(chars@.subrange(from as int, to as int)) && m
            == digits_value(chars@.subrange(from as int, to as int)) && m <= limit,
        number is None ==> !(all_digits(chars@.subrange(from as int, to as int)) && digits_value(
            chars@.subrange(from as int, to as int),
        ) <= limit),
{
    let ghost run = chars@.subrange(from as int, to as int);
    let mut sum: u64 = 0;
    let mut i: usize = from;
    proof {
        assert(run.take(0) =~= Seq::<char>::empty());
    }
    while i < to
        invariant
            from <= i <= to <= chars.len(),
            limit <= 1_000_000_000_000_000_000,
            run == chars@.subrange(from as int, to as int),
            all_digits(run.take(i - from)),
            sum == digits_value(run.take(i - from)),
            sum <= limit,
        decreases to - i,
    {
        let c: char = chars[i];
        proof {
            assert(run[i - from] == c);
            assert(run.take(i - from + 1) =~= run.take(i - from).push(c));
            lemma_digits_push(run.take(i - from), c);
        }
        match digit(c) {
            Some(d) => {
                sum = sum * 10 + d as u64;
                proof {
                    assert forall|j: int| 0 <= j < i - from + 1 implies is_digit(
                        #[trigger] run.take(i - from + 1)[j],
                    ) by {
                        if j < i - from {
                            assert(run.take(i - from)[j] == run[j]);
                        }
                    }
                }
                if sum > limit {
                    proof {
                        if all_digits(run) {
                            lemma_digits_grow(run, i - from + 1);
                        }
                    }
                    return None;
                }
            },
            None => {
                assert(!is_digit(run[i - from]));
                return None;
            },
        }
        i = i + 1;
    }
    proof {
        assert(run.take(to - from) =~= run);
    }
    Some(sum)
}

/// The end of the run of digits that starts at `from`.
fn scan_digits(chars: &Vec<char>, from: usize) -> (end: usize)
    requires
        from <= chars.len(),
    ensures
        end == digits_end(chars@, from as int),
        from <= end <= chars.len(),
{
    let mut end: usize = from;
    while end < chars.len() && digit(chars[end]).is_some()
        invariant
            from <= end <= chars.len(),
            digits_end(chars@, from as int) == digits_end(chars@, end as int),
        decreases chars.len() - end,
    {
        end = end + 1;
    }
    end
}

/// Appending a hexadecimal digit multiplies by sixteen and adds it.
proof fn lemma_hex_push(s: Seq<char>, c: char)
    ensures
        hex_value(s.push(c)) == hex_value(s) * 16 + hex_digit_of(c),
{
    assert(s.push(c).drop_last() =~= s);
}

/// A run of hexadecimal digits writes no less than any of its beginnings,
/// and nothing below zero.
proof fn lemma_hex_grow(s: Seq<char>, i: int)
    requires
        all_hex_digits(s),
        0 <= i <= s.len(),
    ensures
        0 <= hex_value(s.take(i)) <= hex_value(s),
    decreases s.len(),
{
    if s.len() == 0 {
        assert(s.take(i) =~= s);
    } else if i == s.len() {
        assert(s.take(i) =~= s);
        lemma_hex_grow(s.drop_last(), i - 1);
        assert(is_hex_digit(s.last()));
    } else {
        assert(s.drop_last().take(i) =~= s.take(i));
        assert(forall|j: int| 0 <= j < s.drop_last().len() ==> s.drop_last()[j] == s[j]);
        lemma_hex_grow(s.drop_last(), i);
        lemma_hex_grow(s.drop_last(), s.len() - 1);
        assert(s.drop_last().take(s.len() - 1) =~= s.drop_last());
        assert(is_hex_digit(s.last()));
    }
}

/// The value of the hexadecimal digit `c`, if it is one.
pub fn hex_digit(c: char) -> (d: Option<u8>)
    ensures
        d matches Some(v) ==> is_hex_digit(c) && v == hex_digit_of(c) && v <= 15,
        d is None ==> !is_hex_digit(c),
{
    if '0' <= c && c <= '9' {
        Some((c as u32 - '0' as u32) as u8)
    } else if 'a' <= c && c <= 'f' {
        Some((c as u32 - 'a' as u32 + 10) as u8)
    } else if 'A' <= c && c <= 'F' {
        Some((c as u32 - 'A' as u32 + 10) as u8)
    } else {
        None
    }
}

/// The number that the characters from `from` to `to` write in
/// hexadecimal digits, where they are such and the number is at most
/// `limit`.
fn hex_number(chars: &Vec<char>, from: usize, to: usize, limit: u64) -> (number: Option<u64>)
    requires
        from <= to <= chars.len(),
        limit <= 1_000_000_000_000_000_000,
    ensures
        number matches Some(m) ==> all_hex_digits(chars@.subrange(from as int, to as int)) && m
            == hex_value(chars@.subrange(from as int, to as int)) && m <= limit,
        number is None ==> !(all_hex_digits(chars@.subrange(from as int, to as int)) && hex_value(
            chars@.subrange(from as int, to as int),
        ) <= limit),
{
    let ghost run = chars@.subrange(from as int, to as int);
    let mut sum: u64 = 0;
    let mut i: usize = from;
    proof {
        assert(run.take(0) =~= Seq::<char>::empty());
    }
    while i < to
        invariant
            from <= i <= to <= chars.len(),
            limit <= 1_000_000_000_000_000_000,
            run == chars@.subrange(from as int, to as int),
            all_hex_digits(run.take(i - from)),
            sum == hex_value(run.take(i - from)),
            sum <= limit,
        decreases to - i,
    {
        let c: char = chars[i];
        proof {
            assert(run[i - from] == c);
            assert(run.take(i - from + 1) =~= run.take(i - from).push(c));
            lemma_hex_push(run.take(i - from), c);
        }
        match hex_digit(c) {
            Some(d) => {
                sum = sum * 16 + d as u64;
                proof {
                    assert forall|j: int| 0 <= j < i - from + 1 implies is_hex_digit(
                        #[trigger] run.take(i - from + 1)[j],
                    ) by {
                        if j < i - from {
                            assert(run.take(i - from)[j] == run[j]);
                        }
                    }
                }
                if sum > limit {
                    proof {
                        if all_hex_digits(run) {
                            lemma_hex_grow(run, i - from + 1);
                        }
                    }
                    return None;
                }
            },
            None => {
                assert(!is_hex_digit(run[i - from]));
                return None;
            },
        }
        i = i + 1;
    }
    proof {
        assert(run.take(to - from) =~= run);
    }
    Some(sum)
}

/// The whole number of 32 bits that the characters from `start` on
/// write, sign and all, in decimal digits or in hexadecimal ones.
fn signed_number(chars: &Vec<char>, start: usize, hex: bool) -> (number: Option<i32>)
    requires
        start <= chars.len(),
    ensures
        number == in_i32(
            if hex {
                hex_integer_value(chars@.skip(start as int))
            } else {
                integer_value(chars@.skip(start as int))
            },
        ),
{
    let n: usize = chars.len();
    let ghost text = chars@.skip(start as int);
    let signed: bool = start < n && (chars[start] == '+' || chars[start] == '-');
    let from: usize = if signed {
        start + 1
    } else {
        start
    };
    proof {
        if start < n {
            assert(text[0] == chars@[start as int]);
        }
        assert(chars@.subrange(from as int, n as int) =~= if has_sign(text) {
            text.skip(1)
        } else {
            text
        });
    }
    if from == n {
        return None;
    }
    let magnitude: Option<u64> = if hex {
        hex_number(chars, from, n, 2147483648)
    } else {
        digits_number(chars, from, n, 2147483648)
    };
    match magnitude {
        Some(m) => {
            if signed && chars[start] == '-' {
                Some((-(m as i64)) as i32)
            } else if m <= 2147483647 {
                Some(m as i32)
            } else {
                None
            }
        },
        None => None,
    }
}

/// Reads the whole number of 32 bits that a field writes: after `0x` in
/// hexadecimal digits of either case, else in decimal digits; in both an
/// optional sign comes before the digits, and after the `0x`. Any other
/// text, and a number out of range, gives `None`.
pub fn parse_whole(text: &str) -> (number: Option<i32>)
    ensures
        number == in_i32(whole_number(text@)),
{
    let chars: Vec<char> = chars_of(text);
    if chars.len() >= 2 && chars[0] == '0' && chars[1] == 'x' {
        signed_number(&chars, 2, true)
    } else {
        proof {
            assert(chars@.skip(0) =~= text@);
        }
        signed_number(&chars, 0, false)
    }
}

/// Reads a number of 16 bits without sign: an optional `+` and one digit
/// or more. Any other text, and a number out of range, gives `None`.
pub fn parse_u16(text: &str) -> (number: Option<u16>)
    ensures
        number == match unsigned_value(text@) {
            Some(v) => if v <= u16::MAX {
                Some(v as u16)
            } else {
                None
            },
            None => None,
        },
{
    let chars: Vec<char> = chars_of(text);
    let n: usize = chars.len();
    if n > 0 && chars[0] == '-' {
        return None;
    }
    let from: usize = if n > 0 && chars[0] == '+' {
        1
    } else {
        0
    };
    if from == n {
        return None;
    }
    proof {
        assert(chars@.subrange(from as int, n as int) =~= if has_sign(text@) {
            text@.skip(1)
        } else {
            text@
        });
        if all_digits(chars@.subrange(from as int, n as int)) {
            lemma_digits_grow(chars@.subrange(from as int, n as int), 0);
        }
    }
    match digits_number(&chars, from, n, 65535) {
        Some(m) => Some(m as u16),
        None => None,
    }
}

/// Reads the power of ten at the tail of a decimal number, from `from` on.
fn parse_exponent(chars: &Vec<char>, from: usize) -> (power: Option<i32>)
    requires
        from <= chars.len(),
    ensures
        power matches Some(e) ==> exponent_value(chars@.skip(from as int)) == Some(e as int)
            && -999 <= e <= 999,
        power is None ==> exponent_value(chars@.skip(from as int)) is None,
{
    let n: usize = chars.len();
    let ghost tail = chars@.skip(from as int);
    if from == n {
        return Some(0);
    }
    proof {
        assert(tail[0] == chars@[from as int]);
    }
    if !(chars[from] == 'e' || chars[from] == 'E') {
        return None;
    }
    let ghost body = tail.skip(1);
    let signed: bool = from + 1 < n && (chars[from + 1] == '+' || chars[from + 1] == '-');
    let start: usize = if signed {
        from + 2
    } else {
        from + 1
    };
    proof {
        if from + 1 < n {
            assert(body[0] == chars@[from + 1]);
        }
        assert(chars@.subrange(start as int, n as int) =~= if has_sign(body) {
            body.skip(1)
        } else {
            body
        });
    }
    if start == n || n - start > 3 {
        return None;
    }
    match digits_number(chars, start, n, 999) {
        Some(m) => {
            if signed && chars[from + 1] == '-' {
                Some(-(m as i32))
            } else {
                Some(m as i32)
            }
        },
        None => {
            proof {
                let digits = chars@.subrange(start as int, n as int);
                if all_digits(digits) {
                    lemma_digits_bound(digits);
                }
            }
            None
        },
    }
}

/// A run of digits writes nothing below zero, and up to three digits
/// write a number below ten, a hundred and a thousand.
proof fn lemma_digits_bound(s: Seq<char>)
    requires
        all_digits(s),
    ensures
        0 <= digits_value(s),
        s.len() == 0 ==> digits_value(s) == 0,
        s.len() == 1 ==> digits_value(s) <= 9,
        s.len() == 2 ==> digits_value(s) <= 99,
        s.len() == 3 ==> digits_value(s) <= 999,
    decreases s.len(),
{
    if s.len() > 0 {
        assert(forall|j: int| 0 <= j < s.drop_last().len() ==> s.drop_last()[j] == s[j]);
        lemma_digits_bound(s.drop_last());
        assert(is_digit(s.last()));
    }
}

/// Appends the characters from `from` to `to` to `out`.
fn append_range(out: &mut Vec<char>, chars: &Vec<char>, from: usize, to: usize)
    requires
        from <= to <= chars.len(),
    ensures
        final(out)@ == old(out)@ + chars@.subrange(from as int, to as int),
{
    let mut i: usize = from;
    proof {
        assert(out@ =~= old(out)@ + chars@.subrange(from as int, from as int));
    }
    while i < to
        invariant
            from <= i <= to <= chars.len(),
            out@ == old(out)@ + chars@.subrange(from as int, i as int),
        decreases to - i,
    {
        proof {
            assert(chars@.subrange(from as int, i + 1) =~= chars@.subrange(
                from as int,
                i as int,
            ).push(chars@[i as int]));
        }
        out.push(chars[i]);
        i = i + 1;
    }
}

/// The number that the first `keep` digits write, zeros standing where the
/// digits have run out, where it is at most the greatest value of 64 bits.
fn padded_number(digits: &Vec<char>, keep: i128) -> (number: Option<u64>)
    requires
        all_digits(digits@),
    ensures
        number matches Some(m) ==> m == digits_value(pad_take(digits@, keep as int)) && m
            <= i64::MAX,
        number is None ==> digits_value(pad_take(digits@, keep as int)) > i64::MAX,
{
    let ghost kept = pad_take(digits@, keep as int);
    if keep <= 0 {
        return Some(0);
    }
    let mut sum: u64 = 0;
    let mut i: i128 = 0;
    proof {
        assert(kept.take(0) =~= Seq::<char>::empty());
    }
    while i < keep
        invariant
            0 <= i <= keep,
            kept == pad_take(digits@, keep as int),
            kept.len() == keep,
            all_digits(digits@),
            all_digits(kept),
            sum == digits_value(kept.take(i as int)),
            sum <= i64::MAX,
        decreases keep - i,
    {
        let c: char = if i < digits.len() as i128 {
            digits[i as usize]
        } else {
            '0'
        };
        proof {
            assert(kept[i as int] == c);
            assert(kept.take(i + 1) =~= kept.take(i as int).push(c));
            lemma_digits_push(kept.take(i as int), c);
            assert(is_digit(kept[i as int]));
        }
        let d: u8 = match digit(c) {
            Some(d) => d,
            None => 0,
        };
        let next: u128 = sum as u128 * 10 + d as u128;
        if next > i64::MAX as u128 {
            proof {
                lemma_digits_grow(kept, i + 1);
            }
            return None;
        }
        sum = next as u64;
        i = i + 1;
    }
    proof {
        assert(kept.take(kept.len() as int) =~= kept);
    }
    Some(sum)
}

/// Whether a digit other than zero stands at `from` or after it.
fn any_nonzero_from(digits: &Vec<char>, from: i128) -> (found: bool)
    ensures
        found == nonzero_from(digits@, from as int),
{
    if from >= digits.len() as i128 {
        return false;
    }
    let mut i: usize = if from <= 0 {
        0
    } else {
        from as usize
    };
    while i < digits.len()
        invariant
            from <= i <= digits.len(),
            forall|j: int| from <= j && 0 <= j < i ==> digits@[j] == '0',
        decreases digits.len() - i,
    {
        if digits[i] != '0' {
            return true;
        }
        i = i + 1;
    }
    false
}

/// Reads a decimal number as a fixed-point value of `places` places,
/// rounded away from zero. Any text that is no such number, and a
/// magnitude above the greatest value of 64 bits, gives `None`.
pub fn parse_decimal(text: &str, places: u8) -> (number: Option<i64>)
    ensures
        number == match decimal_value(text@, places as int, i64::MAX as int) {
            Some(v) => Some(v as i64),
            None => None,
        },
{
    let chars: Vec<char> = chars_of(text);
    let n: usize = chars.len();
    let signed: bool = n > 0 && (chars[0] == '+' || chars[0] == '-');
    let negative: bool = signed && chars[0] == '-';
    let whole_from: usize = if signed {
        1
    } else {
        0
    };
    let whole_to: usize = scan_digits(&chars, whole_from);
    let fraction_from: usize = if whole_to < n && chars[whole_to] == '.' {
        whole_to + 1
    } else {
        whole_to
    };
    let fraction_to: usize = scan_digits(&chars, fraction_from);
    proof {
        lemma_digits_end(text@, whole_from as int);
        lemma_digits_end(text@, fraction_from as int);
    }
    let mut mantissa: Vec<char> = Vec::new();
    append_range(&mut mantissa, &chars, whole_from, whole_to);
    append_range(&mut mantissa, &chars, fraction_from, fraction_to);
    proof {
        let whole = text@.subrange(whole_from as int, whole_to as int);
        let fraction = text@.subrange(fraction_from as int, fraction_to as int);
        assert(mantissa@ =~= whole + fraction);
        assert forall|j: int| 0 <= j < mantissa@.len() implies is_digit(#[trigger] mantissa@[j]) by {
            if j < whole.len() {
                assert(whole[j] == mantissa@[j]);
            } else {
                assert(fraction[j - whole.len()] == mantissa@[j]);
            }
        }
    }
    if mantissa.len() == 0 {
        return None;
    }
    let power: i32 = match parse_exponent(&chars, fraction_to) {
        Some(e) => e,
        None => {
            return None;
        },
    };
    let keep: i128 = (whole_to - whole_from) as i128 + power as i128 + places as i128;
    let kept: u64 = match padded_number(&mantissa, keep) {
        Some(m) => m,
        None => {
            return None;
        },
    };
    let magnitude: u64 = if any_nonzero_from(&mantissa, keep) {
        kept + 1
    } else {
        kept
    };
    if magnitude > i64::MAX as u64 {
        None
    } else if negative {
        Some(-(magnitude as i64))
    } else {
        Some(magnitude as i64)
    }
}

/// Ten to the power of `n`.
pub open spec fn pow10(n: nat) -> int
    decreases n,
{
    if n == 0 {
        1
    } else {
        10 * pow10((n - 1) as nat)
    }
}

/// A power of ten is positive.
pub proof fn lemma_pow10_positive(n: nat)
    ensures
        pow10(n) > 0,
    decreases n,
{
    if n > 0 {
        lemma_pow10_positive((n - 1) as nat);
    }
}

/// The first `k` digits of a run write the number of the whole run,
/// divided by ten for every digit left out and cut off to a whole number.
proof fn lemma_take_divides(digits: Seq<char>, k: int)
    requires
        all_digits(digits),
        0 <= k <= digits.len(),
    ensures
        digits_value(digits.take(k)) == digits_value(digits) / pow10((digits.len() - k) as nat),
    decreases digits.len() - k,
{
    if k == digits.len() {
        assert(digits.take(k) =~= digits);
    } else {
        let more = digits.take(k + 1);
        let left: nat = (digits.len() - k - 1) as nat;
        lemma_take_divides(digits, k + 1);
        assert(more =~= digits.take(k).push(digits[k]));
        lemma_digits_push(digits.take(k), digits[k]);
        lemma_digits_grow(digits, k);
        lemma_digits_grow(digits, 0);
        assert(digits.take(0) =~= Seq::<char>::empty());
        assert(is_digit(digits[k]));
        lemma_pow10_positive(left);
        let whole = digits_value(digits);
        assert(digits_value(digits.take(k)) == digits_value(more) / 10) by {
            vstd::arithmetic::div_mod::lemma_fundamental_div_mod_converse(
                digits_value(more),
                10,
                digits_value(digits.take(k)),
                digit_of(digits[k]),
            );
        }
        assert((whole / pow10(left)) / 10 == whole / (pow10(left) * 10)) by {
            vstd::arithmetic::div_mod::lemma_div_denominator(whole, pow10(left), 10);
        }
        assert(pow10((left + 1) as nat) == pow10(left) * 10);
    }
}

/// A run of digits followed by `k` zeros writes the number of the run
/// times ten for every zero.
proof fn lemma_pad_multiplies(digits: Seq<char>, k: nat)
    requires
        all_digits(digits),
    ensures
        digits_value(pad_take(digits, (digits.len() + k) as int)) == digits_value(digits) * pow10(k),
    decreases k,
{
    if k == 0 {
        assert(pad_take(digits, digits.len() as int) =~= digits);
    } else {
        let shorter = pad_take(digits, digits.len() + k - 1);
        lemma_pad_multiplies(digits, (k - 1) as nat);
        assert(pad_take(digits, (digits.len() + k) as int) =~= shorter.push('0'));
        lemma_digits_push(shorter, '0');
        assert(digits_value(digits) * pow10((k - 1) as nat) * 10 == digits_value(digits) * (10
            * pow10((k - 1) as nat))) by (nonlinear_arith);
    }
}

/// What the first `k` digits of a run write, zeros standing where the run
/// has ended: the number of the run shifted by as many places as `k`
/// differs from its length, to the left by multiplying with a power of
/// ten, to the right by dividing and cutting off. So the digits kept of a
/// decimal number write the number of the text, times ten to the power of
/// the places held, cut off towards zero.
pub proof fn lemma_pad_take_shifts(digits: Seq<char>, k: int)
    requires
        all_digits(digits),
        0 <= k,
    ensures
        k >= digits.len() ==> digits_value(pad_take(digits, k)) == digits_value(digits) * pow10(
            (k - digits.len()) as nat,
        ),
        k <= digits.len() ==> digits_value(pad_take(digits, k)) == digits_value(digits) / pow10(
            (digits.len() - k) as nat,
        ),
{
    if k >= digits.len() {
        lemma_pad_multiplies(digits, (k - digits.len()) as nat);
        if k == digits.len() {
            assert(pow10(0) == 1);
            assert(digits_value(digits) * 1 == digits_value(digits) / 1);
        }
    } else {
        lemma_take_divides(digits, k);
        assert(pad_take(digits, k) =~= digits.take(k));
    }
}

/// Digits that write zero are zeros.
proof fn lemma_zero_digits(digits: Seq<char>)
    requires
        all_digits(digits),
        digits_value(digits) == 0,
    ensures
        forall|i: int| 0 <= i < digits.len() ==> digits[i] == '0',
    decreases digits.len(),
{
    if digits.len() > 0 {
        let rest = digits.drop_last();
        assert(forall|j: int| 0 <= j < rest.len() ==> rest[j] == digits[j]);
        lemma_digits_grow(rest, 0);
        assert(rest.take(0) =~= Seq::<char>::empty());
        lemma_digits_grow(rest, rest.len() as int);
        assert(rest.take(rest.len() as int) =~= rest);
        assert(is_digit(digits.last()));
        lemma_zero_digits(rest);
    }
}

/// Only zero reads as zero: a decimal number that is held as 0 is written
/// with no digit other than zero. A p-value, however small, stays above
/// zero.
pub proof fn lemma_only_zero_reads_as_zero(text: Seq<char>, places: int, limit: int)
    requires
        decimal_value(text, places, limit) == Some(0int),
    ensures
        !nonzero_from(mantissa_of(text), 0),
{
    let parts = decimal_parts(text);
    let mantissa = mantissa_of(text);
    let e = exponent_value(text.skip(parts.fraction_to)).unwrap();
    let keep = parts.whole_to - parts.whole_from + e + places;
    let kept = pad_take(mantissa, keep);
    let from = if has_sign(text) {
        1int
    } else {
        0int
    };
    assert(from <= text.len());
    lemma_digits_end(text, parts.whole_from);
    lemma_digits_end(text, parts.fraction_from);
    assert forall|j: int| 0 <= j < mantissa.len() implies is_digit(#[trigger] mantissa[j]) by {
        let whole = text.subrange(parts.whole_from, parts.whole_to);
        let fraction = text.subrange(parts.fraction_from, parts.fraction_to);
        if j < whole.len() {
            assert(whole[j] == mantissa[j]);
        } else {
            assert(fraction[j - whole.len()] == mantissa[j]);
        }
    }
    assert(all_digits(kept));
    lemma_digits_grow(kept, 0);
    assert(kept.take(0) =~= Seq::<char>::empty());
    lemma_digits_grow(kept, kept.len() as int);
    assert(kept.take(kept.len() as int) =~= kept);
    assert(digits_value(kept) == 0);
    assert(!nonzero_from(mantissa, keep));
    lemma_zero_digits(kept);
    assert forall|i: int| 0 <= i < mantissa.len() implies #[trigger] mantissa[i] == '0' by {
        if i < keep {
            assert(kept[i] == mantissa[i]);
        }
    }
}

} // verus!
