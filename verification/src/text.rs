//! Text: decimal numbers, ASCII letter case, searching, UTF-16.

use vstd::prelude::*;

verus! {

/// The character of a decimal digit, as text.
pub open spec fn digit_text(digit: int) -> Seq<char> {
    if digit == 0 {
        "0"@
    } else if digit == 1 {
        "1"@
    } else if digit == 2 {
        "2"@
    } else if digit == 3 {
        "3"@
    } else if digit == 4 {
        "4"@
    } else if digit == 5 {
        "5"@
    } else if digit == 6 {
        "6"@
    } else if digit == 7 {
        "7"@
    } else if digit == 8 {
        "8"@
    } else {
        "9"@
    }
}

/// A natural number in decimal.
pub open spec fn decimal_nat(n: int) -> Seq<char>
    decreases n,
{
    if n < 10 {
        digit_text(n)
    } else {
        decimal_nat(n / 10) + digit_text(n % 10)
    }
}

/// A number in decimal, with a minus sign below zero.
pub open spec fn decimal(n: int) -> Seq<char> {
    if n < 0 {
        "-"@ + decimal_nat(-n)
    } else {
        decimal_nat(n)
    }
}

/// `tenths` tenths, with one place after the point.
pub open spec fn decimal_tenths(tenths: int) -> Seq<char> {
    decimal_nat(tenths / 10) + "."@ + digit_text(tenths % 10)
}

fn push_digit(text: &mut String, digit: u64)
    requires
        digit < 10,
    ensures
        final(text)@ == old(text)@ + digit_text(digit as int),
{
    if digit == 0 {
        text.append("0");
    } else if digit == 1 {
        text.append("1");
    } else if digit == 2 {
        text.append("2");
    } else if digit == 3 {
        text.append("3");
    } else if digit == 4 {
        text.append("4");
    } else if digit == 5 {
        text.append("5");
    } else if digit == 6 {
        text.append("6");
    } else if digit == 7 {
        text.append("7");
    } else if digit == 8 {
        text.append("8");
    } else {
        text.append("9");
    }
}

/// Appends `n` in decimal.
pub fn push_number(text: &mut String, n: u64)
    ensures
        final(text)@ == old(text)@ + decimal_nat(n as int),
    decreases n,
{
    if n < 10 {
        push_digit(text, n);
    } else {
        let ghost before = text@;
        push_number(text, n / 10);
        push_digit(text, n % 10);
        assert(text@ =~= before + decimal_nat(n as int));
    }
}

/// Appends `n` in decimal.
pub fn push_signed(text: &mut String, n: i64)
    ensures
        final(text)@ == old(text)@ + decimal(n as int),
{
    if n < 0 {
        let ghost before = text@;
        text.append("-");
        let magnitude: u64 = if n == i64::MIN {
            0x8000_0000_0000_0000
        } else {
            (-n) as u64
        };
        push_number(text, magnitude);
        assert(text@ =~= before + decimal(n as int));
    } else {
        push_number(text, n as u64);
    }
}

/// Appends `tenths` tenths, with one place after the point.
pub fn push_tenths(text: &mut String, tenths: u64)
    ensures
        final(text)@ == old(text)@ + decimal_tenths(tenths as int),
{
    let ghost before = text@;
    push_number(text, tenths / 10);
    text.append(".");
    push_digit(text, tenths % 10);
    assert(text@ =~= before + decimal_tenths(tenths as int));
}

/// The character of a small hexadecimal digit, as text.
pub open spec fn hex_text(digit: int) -> Seq<char> {
    if digit < 10 {
        digit_text(digit)
    } else if digit == 10 {
        "a"@
    } else if digit == 11 {
        "b"@
    } else if digit == 12 {
        "c"@
    } else if digit == 13 {
        "d"@
    } else if digit == 14 {
        "e"@
    } else {
        "f"@
    }
}

fn push_hex_digit(text: &mut String, digit: u8)
    requires
        digit < 16,
    ensures
        final(text)@ == old(text)@ + hex_text(digit as int),
{
    if digit < 10 {
        push_digit(text, digit as u64);
    } else if digit == 10 {
        text.append("a");
    } else if digit == 11 {
        text.append("b");
    } else if digit == 12 {
        text.append("c");
    } else if digit == 13 {
        text.append("d");
    } else if digit == 14 {
        text.append("e");
    } else {
        text.append("f");
    }
}

/// Appends the two hexadecimal digits of `byte`.
pub fn push_hex_byte(text: &mut String, byte: u8)
    ensures
        final(text)@ == old(text)@ + hex_text(byte as int / 16) + hex_text(byte as int % 16),
{
    push_hex_digit(text, byte / 16);
    push_hex_digit(text, byte % 16);
}

/// The text that holds what `text` holds.
pub fn string_of(text: &str) -> (copy: String)
    ensures
        copy@ == text@,
{
    text.to_owned()
}

/// The characters of `text`.
pub fn chars_of(text: &str) -> (chars: Vec<char>)
    ensures
        chars@ == text@,
{
    let mut chars: Vec<char> = Vec::new();
    for c in it: text.chars()
        invariant
            chars@ == it.seq().subrange(0, it.index()),
            it.seq() == text@,
    {
        chars.push(c);
    }
    assert(chars@ =~= text@);
    chars
}

/// `c` with an ASCII capital made small.
pub open spec fn ascii_lower(c: char) -> char {
    if 'A' <= c && c <= 'Z' {
        ((c as u32) + 32) as char
    } else {
        c
    }
}

/// `text` with its ASCII capitals made small.
pub open spec fn lower(text: Seq<char>) -> Seq<char> {
    text.map_values(|c: char| ascii_lower(c))
}

fn lower_char(c: char) -> (small: char)
    ensures
        small == ascii_lower(c),
{
    if 'A' <= c && c <= 'Z' {
        ((c as u8) + 32) as char
    } else {
        c
    }
}

/// The characters of `text` with its ASCII capitals made small.
pub fn lower_chars(text: &str) -> (chars: Vec<char>)
    ensures
        chars@ == lower(text@),
{
    let all: Vec<char> = chars_of(text);
    let mut chars: Vec<char> = Vec::new();
    let mut i: usize = 0;
    while i < all.len()
        invariant
            i <= all.len(),
            chars@ == lower(all@.subrange(0, i as int)),
        decreases all.len() - i,
    {
        chars.push(lower_char(all[i]));
        i = i + 1;
        assert(chars@ =~= lower(all@.subrange(0, i as int)));
    }
    assert(all@.subrange(0, i as int) =~= text@);
    chars
}

/// Whether `text` holds `part` at `at`.
pub open spec fn holds_at<T>(text: Seq<T>, at: int, part: Seq<T>) -> bool {
    0 <= at && at + part.len() <= text.len() && text.subrange(at, at + part.len()) == part
}

/// Whether `text` holds `part` anywhere.
pub open spec fn holds<T>(text: Seq<T>, part: Seq<T>) -> bool {
    exists|at: int| #[trigger] holds_at(text, at, part)
}

/// Whether `text` begins with `part`.
pub open spec fn begins_with<T>(text: Seq<T>, part: Seq<T>) -> bool {
    holds_at(text, 0, part)
}

/// Whether `text` ends with `part`.
pub open spec fn ends_with<T>(text: Seq<T>, part: Seq<T>) -> bool {
    holds_at(text, text.len() - part.len(), part)
}

/// Whether `text` holds `part` at `at`.
pub fn chars_at(text: &[char], at: usize, part: &[char]) -> (found: bool)
    requires
        at <= text@.len(),
    ensures
        found == holds_at(text@, at as int, part@),
{
    if text.len() - at < part.len() {
        return false;
    }
    let mut i: usize = 0;
    while i < part.len()
        invariant
            i <= part.len(),
            at + part.len() <= text.len(),
            forall|j: int| 0 <= j < i ==> text@[at + j] == #[trigger] part@[j],
        decreases part.len() - i,
    {
        if text[at + i] != part[i] {
            assert(text@.subrange(at as int, at + part@.len())[i as int] != part@[i as int]);
            return false;
        }
        i = i + 1;
    }
    assert(text@.subrange(at as int, at + part@.len()) =~= part@);
    true
}

/// Whether `text` holds `part` anywhere.
pub fn chars_within(text: &[char], part: &[char]) -> (found: bool)
    ensures
        found == holds(text@, part@),
{
    let mut at: usize = 0;
    while at < text.len()
        invariant
            at <= text.len(),
            forall|j: int| 0 <= j < at ==> !(#[trigger] holds_at(text@, j, part@)),
        decreases text.len() - at,
    {
        if chars_at(text, at, part) {
            return true;
        }
        at = at + 1;
    }
    chars_at(text, at, part)
}

/// Whether `text` begins with `part`.
pub fn chars_begin(text: &[char], part: &[char]) -> (found: bool)
    ensures
        found == begins_with(text@, part@),
{
    chars_at(text, 0, part)
}

/// Whether `text` ends with `part`.
pub fn chars_end(text: &[char], part: &[char]) -> (found: bool)
    ensures
        found == ends_with(text@, part@),
{
    if text.len() < part.len() {
        return false;
    }
    chars_at(text, text.len() - part.len(), part)
}

/// Whether two texts are the same.
pub fn same_chars(a: &[char], b: &[char]) -> (same: bool)
    ensures
        same == (a@ == b@),
{
    if a.len() != b.len() {
        return false;
    }
    let same = chars_at(a, 0, b);
    assert(a@.subrange(0, a@.len() as int) =~= a@);
    same
}

/// Whether two texts are the same.
pub fn same_text(a: &str, b: &str) -> (same: bool)
    ensures
        same == (a@ == b@),
{
    let a_chars: Vec<char> = chars_of(a);
    let b_chars: Vec<char> = chars_of(b);
    same_chars(a_chars.as_slice(), b_chars.as_slice())
}

/// Whether two texts are the same but for the case of ASCII letters.
pub fn same_but_for_case(a: &str, b: &str) -> (same: bool)
    ensures
        same == (lower(a@) == lower(b@)),
{
    let a_chars: Vec<char> = lower_chars(a);
    let b_chars: Vec<char> = lower_chars(b);
    same_chars(a_chars.as_slice(), b_chars.as_slice())
}

/// Unicode's white space.
pub open spec fn is_white(c: char) -> bool {
    let u = c as u32;
    (9 <= u && u <= 13) || u == 0x20 || u == 0x85 || u == 0xa0 || u == 0x1680 || (0x2000 <= u && u
        <= 0x200a) || u == 0x2028 || u == 0x2029 || u == 0x202f || u == 0x205f || u == 0x3000
}

fn is_white_char(c: char) -> (white: bool)
    ensures
        white == is_white(c),
{
    let u: u32 = c as u32;
    (9 <= u && u <= 13) || u == 0x20 || u == 0x85 || u == 0xa0 || u == 0x1680 || (0x2000 <= u && u
        <= 0x200a) || u == 0x2028 || u == 0x2029 || u == 0x202f || u == 0x205f || u == 0x3000
}

/// `text` without the white space at its end.
pub open spec fn trim_end(text: Seq<char>) -> Seq<char>
    decreases text.len(),
{
    if text.len() > 0 && is_white(text.last()) {
        trim_end(text.drop_last())
    } else {
        text
    }
}

/// `text` without the white space at its beginning.
pub open spec fn trim_start(text: Seq<char>) -> Seq<char>
    decreases text.len(),
{
    if text.len() > 0 && is_white(text[0]) {
        trim_start(text.drop_first())
    } else {
        text
    }
}

/// `text` without the white space around it.
pub open spec fn trim(text: Seq<char>) -> Seq<char> {
    trim_end(trim_start(text))
}

/// The characters of `text` without the white space around it.
pub fn trimmed_chars(text: &[char]) -> (chars: Vec<char>)
    ensures
        chars@ == trim(text@),
{
    let mut start: usize = 0;
    let len: usize = text.len();
    assert(text@.subrange(0, len as int) =~= text@);
    while start < len && is_white_char(text[start])
        invariant
            start <= len,
            len == text@.len(),
            trim_start(text@) == trim_start(text@.subrange(start as int, len as int)),
        decreases len - start,
    {
        assert(text@.subrange(start as int, len as int).drop_first() =~= text@.subrange(
            start + 1,
            len as int,
        ));
        start = start + 1;
    }
    let ghost rest = text@.subrange(start as int, len as int);
    assert(trim_start(text@) == rest) by {
        if start < len {
            assert(rest[0] == text@[start as int]);
        }
    }
    let mut end: usize = len;
    while end > start && is_white_char(text[end - 1])
        invariant
            start <= end <= len,
            len == text@.len(),
            trim_end(rest) == trim_end(text@.subrange(start as int, end as int)),
        decreases end,
    {
        assert(text@.subrange(start as int, end as int).drop_last() =~= text@.subrange(
            start as int,
            end - 1,
        ));
        assert(text@.subrange(start as int, end as int).last() == text@[end - 1]);
        end = end - 1;
    }
    let ghost kept = text@.subrange(start as int, end as int);
    assert(trim_end(kept) == kept) by {
        if end > start {
            assert(kept.last() == text@[end - 1]);
        }
    }
    let mut chars: Vec<char> = Vec::new();
    let mut i: usize = start;
    while i < end
        invariant
            start <= i <= end,
            end <= text@.len(),
            chars@ == text@.subrange(start as int, i as int),
        decreases end - i,
    {
        chars.push(text[i]);
        i = i + 1;
        assert(chars@ =~= text@.subrange(start as int, i as int));
    }
    chars
}

/// The UTF-16 code units of one character.
pub open spec fn utf16_char(c: char) -> Seq<u16> {
    let u = c as u32;
    if u < 0x10000 {
        seq![u as u16]
    } else {
        seq![(0xd800 + (u - 0x10000) / 0x400) as u16, (0xdc00 + (u - 0x10000) % 0x400) as u16]
    }
}

/// The UTF-16 code units of `text`.
pub open spec fn utf16(text: Seq<char>) -> Seq<u16>
    decreases text.len(),
{
    if text.len() == 0 {
        seq![]
    } else {
        utf16(text.drop_last()) + utf16_char(text.last())
    }
}

/// Appends the UTF-16 code units of `text`.
pub fn push_utf16(words: &mut Vec<u16>, text: &str)
    ensures
        final(words)@ == old(words)@ + utf16(text@),
{
    let chars: Vec<char> = chars_of(text);
    let ghost before = words@;
    let mut i: usize = 0;
    assert(before =~= before + utf16(chars@.subrange(0, 0)));
    while i < chars.len()
        invariant
            i <= chars.len(),
            words@ == before + utf16(chars@.subrange(0, i as int)),
        decreases chars.len() - i,
    {
        let ghost was = words@;
        let u: u32 = chars[i] as u32;
        if u < 0x10000 {
            words.push(u as u16);
            assert(words@ =~= was + utf16_char(chars@[i as int]));
        } else {
            words.push((0xd800 + (u - 0x10000) / 0x400) as u16);
            words.push((0xdc00 + (u - 0x10000) % 0x400) as u16);
            assert(words@ =~= was + utf16_char(chars@[i as int]));
        }
        i = i + 1;
        let ghost done = chars@.subrange(0, i as int);
        assert(done.drop_last() =~= chars@.subrange(0, i - 1));
        assert(done.last() == chars@[i - 1]);
        assert(words@ =~= before + utf16(done));
    }
    assert(chars@.subrange(0, i as int) =~= text@);
}

/// Whether `c` is an ASCII decimal digit.
pub open spec fn is_digit(c: char) -> bool {
    '0' <= c && c <= '9'
}

/// The number that decimal digits stand for.
pub open spec fn digits_value(digits: Seq<char>) -> int
    decreases digits.len(),
{
    if digits.len() == 0 {
        0
    } else {
        10 * digits_value(digits.drop_last()) + (digits.last() as int - '0' as int)
    }
}

/// The digits of a number that may have a plus sign before them.
pub open spec fn unsigned_digits(text: Seq<char>) -> Seq<char> {
    if text.len() > 0 && text[0] == '+' {
        text.subrange(1, text.len() as int)
    } else {
        text
    }
}

/// Whether `text` is a decimal number without a minus sign.
pub open spec fn is_unsigned(text: Seq<char>) -> bool {
    let digits = unsigned_digits(text);
    digits.len() > 0 && forall|i: int| 0 <= i < digits.len() ==> is_digit(#[trigger] digits[i])
}

/// The number that `text` stands for, if it is a decimal number of at most `max`.
pub open spec fn parse_unsigned_spec(text: Seq<char>, max: int) -> Option<int> {
    if is_unsigned(text) && digits_value(unsigned_digits(text)) <= max {
        Some(digits_value(unsigned_digits(text)))
    } else {
        None
    }
}

/// More digits never make a smaller number.
proof fn lemma_digits_value_grows(digits: Seq<char>, n: int)
    requires
        0 <= n <= digits.len(),
        forall|i: int| 0 <= i < digits.len() ==> is_digit(#[trigger] digits[i]),
    ensures
        0 <= digits_value(digits.subrange(0, n)) <= digits_value(digits),
    decreases digits.len(),
{
    if digits.len() == n {
        assert(digits.subrange(0, n) =~= digits);
        if n > 0 {
            assert(is_digit(digits[n - 1]));
            lemma_digits_value_grows(digits.drop_last(), n - 1);
            assert(digits.drop_last().subrange(0, n - 1) =~= digits.drop_last());
        }
    } else {
        lemma_digits_value_grows(digits.drop_last(), n);
        assert(digits.drop_last().subrange(0, n) =~= digits.subrange(0, n));
        assert(is_digit(digits[digits.len() - 1]));
    }
}

/// Reads a decimal number of at most `max`, with or without a plus sign.
pub fn parse_unsigned(text: &[char], max: u64) -> (value: Option<u64>)
    ensures
        match value {
            Some(value) => parse_unsigned_spec(text@, max as int) == Some(value as int),
            None => parse_unsigned_spec(text@, max as int) is None,
        },
{
    let len: usize = text.len();
    let start: usize = if len > 0 && text[0] == '+' {
        1
    } else {
        0
    };
    let ghost digits = unsigned_digits(text@);
    assert(digits =~= text@.subrange(start as int, len as int));
    if start == len {
        return None;
    }
    let mut value: u64 = 0;
    let mut i: usize = start;
    while i < len
        invariant
            start <= i <= len,
            len == text@.len(),
            digits == unsigned_digits(text@),
            digits == text@.subrange(start as int, len as int),
            forall|j: int| 0 <= j < i - start ==> is_digit(#[trigger] digits[j]),
            value == digits_value(digits.subrange(0, i - start)),
            value <= max,
        decreases len - i,
    {
        let c = text[i];
        assert(c == digits[i - start]);
        if c < '0' || c > '9' {
            return None;
        }
        let digit: u64 = (c as u32 - '0' as u32) as u64;
        let ghost more = digits.subrange(0, i - start + 1);
        assert(more.drop_last() =~= digits.subrange(0, i - start));
        assert(more.last() == c);
        proof {
            if is_unsigned(text@) {
                lemma_digits_value_grows(digits, i - start + 1);
            }
        }
        if value > max / 10 || digit > max - 10 * value {
            return None;
        }
        value = 10 * value + digit;
        i = i + 1;
    }
    assert(digits.subrange(0, len - start) =~= digits);
    Some(value)
}

/// A digit's text is that digit.
proof fn lemma_digit_text(digit: int)
    requires
        0 <= digit < 10,
    ensures
        digit_text(digit) == seq![('0' as int + digit) as char],
        is_digit(('0' as int + digit) as char),
        (('0' as int + digit) as char) as int == '0' as int + digit,
{
    reveal_strlit("0");
    reveal_strlit("1");
    reveal_strlit("2");
    reveal_strlit("3");
    reveal_strlit("4");
    reveal_strlit("5");
    reveal_strlit("6");
    reveal_strlit("7");
    reveal_strlit("8");
    reveal_strlit("9");
    assert(digit_text(digit) =~= seq![('0' as int + digit) as char]);
}

/// A number in decimal reads back as that number.
pub proof fn law_decimal_reads_back(n: int)
    requires
        n >= 0,
    ensures
        is_unsigned(decimal_nat(n)),
        unsigned_digits(decimal_nat(n)) == decimal_nat(n),
        digits_value(decimal_nat(n)) == n,
        decimal_nat(n).len() > 0,
        forall|i: int| 0 <= i < decimal_nat(n).len() ==> is_digit(#[trigger] decimal_nat(n)[i]),
    decreases n,
{
    lemma_digit_text(n % 10);
    let text = decimal_nat(n);
    if n < 10 {
        assert(text.drop_last() =~= Seq::<char>::empty());
        assert(digits_value(text.drop_last()) == 0);
        assert(is_digit(text[0]));
    } else {
        law_decimal_reads_back(n / 10);
        assert(text.drop_last() =~= decimal_nat(n / 10));
        assert forall|i: int| 0 <= i < text.len() implies is_digit(#[trigger] text[i]) by {
            if i < text.len() - 1 {
                assert(text[i] == decimal_nat(n / 10)[i]);
            }
        }
        assert(is_digit(text[0]));
    }
    assert(unsigned_digits(text) == text);
}

/// Whether `text` has `word` between white space or its ends, whatever the
/// case of ASCII letters.
pub open spec fn has_word(text: Seq<char>, word: Seq<char>) -> bool {
    exists|at: int| #[trigger] is_word_at(text, at, word)
}

pub open spec fn is_word_at(text: Seq<char>, at: int, word: Seq<char>) -> bool {
    &&& holds_at(lower(text), at, lower(word))
    &&& at == 0 || is_white(text[at - 1])
    &&& at + word.len() == text.len() || is_white(text[at + word.len()])
}

/// Whether `text` has `word` between white space or its ends, whatever the
/// case of ASCII letters.
pub fn contains_word(text: &str, word: &str) -> (found: bool)
    ensures
        found == has_word(text@, word@),
{
    let chars: Vec<char> = chars_of(text);
    let small: Vec<char> = lower_chars(text);
    let part: Vec<char> = lower_chars(word);
    if small.len() < part.len() {
        return false;
    }
    let mut at: usize = 0;
    while at <= small.len() - part.len()
        invariant
            part.len() <= small.len(),
            at <= small.len() - part.len() + 1,
            chars@ == text@,
            small@ == lower(text@),
            part@ == lower(word@),
            forall|k: int| 0 <= k < at ==> !(#[trigger] is_word_at(text@, k, word@)),
        decreases small.len() - part.len() + 1 - at,
    {
        if chars_at(small.as_slice(), at, part.as_slice()) && (at == 0 || is_white_char(chars[at - 1]))
            && (at == small.len() - part.len() || is_white_char(chars[at + part.len()])) {
            assert(is_word_at(text@, at as int, word@));
            return true;
        }
        if at == small.len() - part.len() {
            return false;
        }
        at = at + 1;
    }
    false
}

/// The last digit of a number in decimal is what is left of it by tens, in
/// ASCII, and the digits before it are those of its tens; a negative number has
/// a minus sign first, and tenths have a point before their last digit.
pub proof fn law_digits_are_by_tens(n: int)
    requires
        n >= 0,
    ensures
        decimal_nat(n).len() > 0,
        decimal_nat(n).last() as int == 48 + n % 10,
        n < 10 ==> decimal_nat(n).len() == 1,
        n >= 10 ==> decimal_nat(n).drop_last() == decimal_nat(n / 10),
        decimal(n) == decimal_nat(n),
        n > 0 ==> decimal(-n) == seq!['-'] + decimal_nat(n),
        decimal_tenths(n) == decimal_nat(n / 10).push('.').push((48 + n % 10) as char),
{
    lemma_digit_text(n % 10);
    reveal_strlit("-");
    reveal_strlit(".");
    if n >= 10 {
        assert(decimal_nat(n).drop_last() =~= decimal_nat(n / 10));
    }
    if n > 0 {
        assert("-"@ =~= seq!['-']);
    }
    assert(decimal_tenths(n) =~= decimal_nat(n / 10).push('.').push((48 + n % 10) as char));
}

/// Hexadecimal digits are the ASCII digits and the small letters from a on.
pub proof fn law_hex_digits_are_small(digit: int)
    requires
        0 <= digit < 16,
    ensures
        hex_text(digit).len() == 1,
        digit < 10 ==> hex_text(digit)[0] as int == 48 + digit,
        digit >= 10 ==> hex_text(digit)[0] as int == 87 + digit,
{
    if digit < 10 {
        lemma_digit_text(digit);
    }
    reveal_strlit("a");
    reveal_strlit("b");
    reveal_strlit("c");
    reveal_strlit("d");
    reveal_strlit("e");
    reveal_strlit("f");
}

/// Decimal digits are read by tens, from the left.
pub proof fn law_digits_are_read_by_tens(digits: Seq<char>, last: char)
    ensures
        digits_value(Seq::empty()) == 0,
        digits_value(digits.push(last)) == 10 * digits_value(digits) + (last as int - 48),
        is_digit(last) <==> 48 <= last as int <= 57,
{
    assert(digits.push(last).drop_last() =~= digits);
}

/// A number is read where there is at least one digit and nothing but digits,
/// behind a plus sign if there is one, and where it is not too large.
pub proof fn law_numbers_are_digits(digits: Seq<char>, max: int, i: int)
    ensures
        (digits.len() > 0 && digits[0] != '+' && (forall|k: int|
            0 <= k < digits.len() ==> 48 <= #[trigger] digits[k] as int <= 57) && digits_value(
            digits,
        ) <= max) ==> {
            &&& parse_unsigned_spec(digits, max) == Some(digits_value(digits))
            &&& parse_unsigned_spec(seq!['+'] + digits, max) == Some(digits_value(digits))
        },
        digits.len() > 0 && digits[0] != '+' && digits_value(digits) > max ==> parse_unsigned_spec(
            digits,
            max,
        ) is None,
        0 <= i < digits.len() && !(48 <= digits[i] as int <= 57) && !(i == 0 && digits[i] == '+')
            ==> parse_unsigned_spec(digits, max) is None,
        parse_unsigned_spec(Seq::empty(), max) is None,
        parse_unsigned_spec(seq!['+'], max) is None,
{
    let signed = seq!['+'] + digits;
    assert(unsigned_digits(signed) =~= digits);
    assert(unsigned_digits(seq!['+']) =~= Seq::<char>::empty());
    if (forall|k: int| 0 <= k < digits.len() ==> 48 <= #[trigger] digits[k] as int <= 57) {
        assert forall|k: int| 0 <= k < digits.len() implies is_digit(#[trigger] digits[k]) by {
            assert(48 <= digits[k] as int <= 57);
        }
    }
    if 0 <= i < digits.len() && !(48 <= digits[i] as int <= 57) && !(i == 0 && digits[i] == '+') {
        let read = unsigned_digits(digits);
        let k = if digits[0] == '+' {
            i - 1
        } else {
            i
        };
        assert(read[k] == digits[i]);
        assert(!is_digit(read[k]));
    }
}

/// Making text small changes the capitals of ASCII alone, each to its letter.
pub proof fn law_small_letters(text: Seq<char>, i: int)
    requires
        0 <= i < text.len(),
    ensures
        lower(text).len() == text.len(),
        65 <= text[i] as int <= 90 ==> lower(text)[i] as int == text[i] as int + 32,
        !(65 <= text[i] as int <= 90) ==> lower(text)[i] == text[i],
{
}

/// A text holds another where it has its elements one after the other; at the
/// beginning or the end, where those are its first or last ones.
pub proof fn law_parts_are_found_element_by_element(text: Seq<char>, at: int, part: Seq<char>)
    ensures
        holds_at(text, at, part) <==> 0 <= at && at + part.len() <= text.len() && forall|j: int|
            0 <= j < part.len() ==> #[trigger] part[j] == text[at + j],
        begins_with(text, part) <==> part.len() <= text.len() && forall|j: int|
            0 <= j < part.len() ==> #[trigger] part[j] == text[j],
        ends_with(text, part) <==> part.len() <= text.len() && forall|j: int|
            0 <= j < part.len() ==> #[trigger] part[j] == text[text.len() - part.len() + j],
        holds_at(text, at, part) ==> holds(text, part),
        begins_with(text, part) || ends_with(text, part) ==> holds(text, part),
{
    lemma_part(text, at, part);
    lemma_part(text, 0, part);
    lemma_part(text, text.len() - part.len(), part);
    if begins_with(text, part) {
        assert(holds_at(text, 0, part));
    }
}

proof fn lemma_part(text: Seq<char>, at: int, part: Seq<char>)
    ensures
        holds_at(text, at, part) <==> 0 <= at && at + part.len() <= text.len() && forall|j: int|
            0 <= j < part.len() ==> #[trigger] part[j] == text[at + j],
{
    if 0 <= at && at + part.len() <= text.len() {
        let there = text.subrange(at, at + part.len());
        if forall|j: int| 0 <= j < part.len() ==> #[trigger] part[j] == text[at + j] {
            assert(there =~= part);
        }
        if there == part {
            assert forall|j: int| 0 <= j < part.len() implies #[trigger] part[j] == text[at + j] by {
                assert(there[j] == text[at + j]);
            }
        }
    }
}

/// Trimming leaves a part of the text that neither begins nor ends with white
/// space, and takes nothing but white space away.
pub proof fn law_trimming_takes_white_space(text: Seq<char>) -> (part: (int, int))
    ensures
        0 <= part.0 <= part.1 <= text.len(),
        trim(text) == text.subrange(part.0, part.1),
        forall|i: int| 0 <= i < part.0 || part.1 <= i < text.len() ==> is_white(#[trigger] text[i]),
        part.0 < part.1 ==> !is_white(text[part.0]) && !is_white(text[part.1 - 1]),
{
    let start = lemma_trim_start(text);
    let rest = trim_start(text);
    let end = lemma_trim_end(rest);
    assert(rest.subrange(0, end) =~= text.subrange(start, start + end));
    assert forall|i: int|
        0 <= i < start || start + end <= i < text.len() implies is_white(#[trigger] text[i]) by {
        if i >= start {
            assert(rest[i - start] == text[i]);
            assert(is_white(rest[i - start]));
        }
    }
    if 0 < end {
        assert(rest[0] == text[start]);
        assert(rest[end - 1] == text[start + end - 1]);
    }
    (start, start + end)
}

proof fn lemma_trim_start(text: Seq<char>) -> (start: int)
    ensures
        0 <= start <= text.len(),
        trim_start(text) == text.subrange(start, text.len() as int),
        forall|i: int| 0 <= i < start ==> is_white(#[trigger] text[i]),
        start < text.len() ==> !is_white(text[start]),
    decreases text.len(),
{
    if text.len() > 0 && is_white(text[0]) {
        let rest = text.drop_first();
        let start = lemma_trim_start(rest);
        assert(rest.subrange(start, rest.len() as int) =~= text.subrange(
            start + 1,
            text.len() as int,
        ));
        assert forall|i: int| 0 <= i < start + 1 implies is_white(#[trigger] text[i]) by {
            if i > 0 {
                assert(rest[i - 1] == text[i]);
            }
        }
        start + 1
    } else {
        assert(text.subrange(0, text.len() as int) =~= text);
        0
    }
}

proof fn lemma_trim_end(text: Seq<char>) -> (end: int)
    ensures
        0 <= end <= text.len(),
        trim_end(text) == text.subrange(0, end),
        forall|i: int| end <= i < text.len() ==> is_white(#[trigger] text[i]),
        0 < end ==> !is_white(text[end - 1]),
    decreases text.len(),
{
    if text.len() > 0 && is_white(text.last()) {
        let rest = text.drop_last();
        let end = lemma_trim_end(rest);
        assert(rest.subrange(0, end) =~= text.subrange(0, end));
        assert forall|i: int| end <= i < text.len() implies is_white(#[trigger] text[i]) by {
            if i < rest.len() {
                assert(rest[i] == text[i]);
            }
        }
        end
    } else {
        assert(text.subrange(0, text.len() as int) =~= text);
        text.len() as int
    }
}

/// In ASCII the space and the controls from the tab to the carriage return are
/// white space, and nothing else.
pub proof fn law_ascii_white_space(c: char)
    requires
        (c as int) < 128,
    ensures
        is_white(c) <==> c as int == 32 || 9 <= c as int <= 13,
{
}

/// The code units of UTF-16 follow the characters; one unit is the character's
/// number, and of two units the first gives the upper and the second the lower
/// ten bits of what it is above 0x10000.
pub proof fn law_utf16_units(text: Seq<char>, c: char)
    ensures
        utf16(Seq::empty()) == Seq::<u16>::empty(),
        utf16(text.push(c)) == utf16(text) + utf16_char(c),
        (c as int) < 0x10000 ==> utf16_char(c).len() == 1 && utf16_char(c)[0] == c as int,
        c as int >= 0x10000 ==> {
            &&& utf16_char(c).len() == 2
            &&& 0xd800 <= utf16_char(c)[0] < 0xdc00
            &&& 0xdc00 <= utf16_char(c)[1] < 0xe000
            &&& 0x10000 + (utf16_char(c)[0] - 0xd800) * 0x400 + (utf16_char(c)[1] - 0xdc00)
                == c as int
        },
{
    assert(text.push(c).drop_last() =~= text);
    let u = c as u32;
    assert(u <= 0x10ffff);
}

/// A word stands between white space or the ends of a text, in capitals or not,
/// and not within another word.
pub proof fn law_words_stand_alone(before: Seq<char>, word: Seq<char>, after: Seq<char>)
    ensures
        (before.len() == 0 || is_white(before.last())) && (after.len() == 0 || is_white(after[0]))
            ==> has_word(before + word + after, word),
        before.len() > 0 && !is_white(before.last()) ==> !is_word_at(
            before + word + after,
            before.len() as int,
            word,
        ),
        after.len() > 0 && !is_white(after[0]) ==> !is_word_at(
            before + word + after,
            before.len() as int,
            word,
        ),
{
    let text = before + word + after;
    let at = before.len() as int;
    assert(lower(text).subrange(at, at + word.len()) =~= lower(word));
    if (before.len() == 0 || is_white(before.last())) && (after.len() == 0 || is_white(after[0])) {
        assert(is_word_at(text, at, word));
    }
}

} // verus!
