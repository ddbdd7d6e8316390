//! Small facts about text that the command line and the overlay both need.

use vstd::prelude::*;

verus! {

/// Whether a piece of text begins with a dash, which is how a flag is told
/// apart from the value that may follow one.
pub open spec fn dashed(text: Seq<char>) -> bool {
    text.len() > 0 && text[0] == '-'
}

/// Compares two strings character by character.
pub fn same_text(a: &str, b: &str) -> (same: bool)
    ensures
        same == (a@ == b@),
{
    let n = a.unicode_len();
    let m = b.unicode_len();
    if n != m {
        return false;
    }
    let mut i: usize = 0;
    while i < n
        invariant
            n == a@.len(),
            m == b@.len(),
            n == m,
            i <= n,
            forall|j: int| 0 <= j < i ==> a@[j] == b@[j],
        decreases n - i,
    {
        if a.get_char(i) != b.get_char(i) {
            return false;
        }
        i = i + 1;
    }
    assert(a@ =~= b@);
    true
}

/// Whether `text` begins with a dash.
pub fn starts_with_dash(text: &str) -> (dash: bool)
    ensures
        dash == dashed(text@),
{
    if text.unicode_len() == 0 {
        false
    } else {
        text.get_char(0) == '-'
    }
}

/// Whether a character is one of the ten ASCII digits.
pub open spec fn is_digit(c: char) -> bool {
    '0' <= c && c <= '9'
}

/// The number an ASCII digit stands for.
pub open spec fn digit_value(c: char) -> nat {
    (c as int - '0' as int) as nat
}

/// The number a run of decimal digits spells, most significant first.
pub open spec fn decimal_value(digits: Seq<char>) -> nat
    decreases digits.len(),
{
    if digits.len() == 0 {
        0
    } else {
        decimal_value(digits.drop_last()) * 10 + digit_value(digits.last())
    }
}

/// The digits of an unsigned number, after an optional leading `+`.
pub open spec fn unsigned_digits(text: Seq<char>) -> Seq<char> {
    if text.len() > 0 && text[0] == '+' {
        text.drop_first()
    } else {
        text
    }
}

/// Whether `text` is how an unsigned integer is written in decimal: an optional
/// `+` and at least one digit, and nothing else.
pub open spec fn is_decimal(text: Seq<char>) -> bool {
    let digits = unsigned_digits(text);
    digits.len() > 0 && forall|i: int| 0 <= i < digits.len() ==> is_digit(digits[i])
}

/// The unsigned integer `text` spells, when it spells one no larger than `max`.
///
/// This is what `str::parse` gives an unsigned integer type: a leading `+` is
/// accepted, an empty text, a sign on its own, any other character and a value
/// past the type's maximum are all refused.
pub open spec fn unsigned_of(text: Seq<char>, max: nat) -> Option<nat> {
    if is_decimal(text) && decimal_value(unsigned_digits(text)) <= max {
        Some(decimal_value(unsigned_digits(text)))
    } else {
        None
    }
}

/// [`unsigned_of`] for a `u64`.
pub open spec fn u64_of(text: Seq<char>) -> Option<u64> {
    match unsigned_of(text, u64::MAX as nat) {
        Some(value) => Some(value as u64),
        None => None,
    }
}

/// [`unsigned_of`] for a `usize`.
pub open spec fn usize_of(text: Seq<char>) -> Option<usize> {
    match unsigned_of(text, usize::MAX as nat) {
        Some(value) => Some(value as usize),
        None => None,
    }
}

/// A prefix never spells a larger number than the whole.
proof fn lemma_prefix_value_le(digits: Seq<char>, k: int)
    requires
        0 <= k <= digits.len(),
    ensures
        decimal_value(digits.subrange(0, k)) <= decimal_value(digits),
    decreases digits.len(),
{
    if k < digits.len() {
        let shorter = digits.drop_last();
        assert(shorter.subrange(0, k) =~= digits.subrange(0, k));
        lemma_prefix_value_le(shorter, k);
    } else {
        assert(digits.subrange(0, k) =~= digits);
    }
}

/// Reads an unsigned decimal integer no larger than `max`.
fn parse_unsigned(text: &str, max: u64) -> (value: Option<u64>)
    requires
        max >= 9,
    ensures
        match value {
            Some(v) => unsigned_of(text@, max as nat) == Some(v as nat),
            None => unsigned_of(text@, max as nat) is None,
        },
{
    let n = text.unicode_len();
    let mut start: usize = 0;
    if n > 0 && text.get_char(0) == '+' {
        start = 1;
    }
    let ghost digits = unsigned_digits(text@);
    assert(digits =~= text@.subrange(start as int, n as int));
    if start >= n {
        return None;
    }
    let mut acc: u64 = 0;
    let mut i: usize = start;
    while i < n
        invariant
            n == text@.len(),
            start <= i <= n,
            start < n,
            digits =~= text@.subrange(start as int, n as int),
            digits == unsigned_digits(text@),
            acc as nat == decimal_value(digits.subrange(0, i - start)),
            acc <= max,
            max >= 9,
            forall|j: int| 0 <= j < i - start ==> is_digit(digits[j]),
        decreases n - i,
    {
        let c = text.get_char(i);
        assert(digits[i - start] == c);
        if !('0' <= c && c <= '9') {
            assert(!is_digit(digits[i - start]));
            return None;
        }
        let d: u64 = (c as u32 - '0' as u32) as u64;
        let ghost prefix = digits.subrange(0, (i + 1 - start) as int);
        assert(prefix.drop_last() =~= digits.subrange(0, i - start));
        assert(prefix.last() == c);
        if acc > (max - d) / 10 {
            proof {
                lemma_prefix_value_le(digits, (i + 1 - start) as int);
                assert(decimal_value(prefix) == acc * 10 + d);
            }
            return None;
        }
        acc = acc * 10 + d;
        i = i + 1;
    }
    assert(digits.subrange(0, n - start) =~= digits);
    Some(acc)
}

/// Reads a `u64` the way `str::parse` does.
pub fn parse_u64(text: &str) -> (value: Option<u64>)
    ensures
        value == u64_of(text@),
{
    parse_unsigned(text, u64::MAX)
}

/// Reads a `usize` the way `str::parse` does.
pub fn parse_usize(text: &str) -> (value: Option<usize>)
    ensures
        value == usize_of(text@),
{
    match parse_unsigned(text, usize::MAX as u64) {
        Some(v) => Some(v as usize),
        None => None,
    }
}

/// The ten decimal digits, in order.
pub const DIGITS: [char; 10] = ['0', '1', '2', '3', '4', '5', '6', '7', '8', '9'];

/// How a number is written in decimal: no sign, no leading zeros, and `0` for
/// zero.
pub open spec fn decimal_text(n: nat) -> Seq<char>
    decreases n,
{
    if n < 10 {
        seq![DIGITS@[n as int]]
    } else {
        decimal_text(n / 10).push(DIGITS@[(n % 10) as int])
    }
}

/// Writes `n` in decimal at the end of `text`.
pub fn append_decimal(text: &mut String, n: u64)
    ensures
        final(text)@ == old(text)@ + decimal_text(n as nat),
    decreases n,
{
    if n >= 10 {
        append_decimal(text, n / 10);
    }
    push_char(text, DIGITS[(n % 10) as usize]);
    assert(text@ =~= old(text)@ + decimal_text(n as nat));
}

/// The sixteen lowercase hexadecimal digits, in order.
pub const HEX_DIGITS: [char; 16] = [
    '0', '1', '2', '3', '4', '5', '6', '7', '8', '9', 'a', 'b', 'c', 'd', 'e', 'f',
];

/// The last `width` hexadecimal digits of `n`, lowercase, zero padded.
pub open spec fn hex_text(n: nat, width: nat) -> Seq<char>
    decreases width,
{
    if width == 0 {
        Seq::empty()
    } else {
        hex_text(n / 16, (width - 1) as nat).push(HEX_DIGITS@[(n % 16) as int])
    }
}

/// Writes the last `width` hexadecimal digits of `n` at the end of `text`.
pub fn append_hex(text: &mut String, n: u64, width: u32)
    ensures
        final(text)@ == old(text)@ + hex_text(n as nat, width as nat),
    decreases width,
{
    if width > 0 {
        append_hex(text, n / 16, width - 1);
        push_char(text, HEX_DIGITS[(n % 16) as usize]);
    }
    assert(text@ =~= old(text)@ + hex_text(n as nat, width as nat));
}

/// Appends one character to a string, by `String::push`, which is documented
/// as appending the character to the end of the string: claimed here as the
/// text gaining exactly that character at its end.
#[verifier::external_body]
pub(crate) fn push_char(text: &mut String, c: char)
    ensures
        final(text)@ == old(text)@.push(c),
{
    text.push(c);
}

} // verus!
