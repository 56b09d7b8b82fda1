//! The kernel's rolled-up memory summary of one process: where it is found,
//! `/proc/<pid>/smaps_rollup`, and the resident set size that it states.
//!
//! The summary is a text of lines. The line that counts is the first that
//! starts with `Rss:`; its second word is the size in kibibytes:
//!
//! ```text
//! Rss:                1024 kB
//! ```

use vstd::prelude::*;
use vstd::slice::slice_subrange;
use vstd::string::{StringExecFns, StringSliceAdditionalSpecFns};

verus! {

/// Why a summary states no resident set size.
#[derive(Debug, Clone, Copy, PartialEq, Eq)]
pub enum RollupError {
    /// No line starts with `Rss:`.
    NoRssLine,
    /// The line that starts with `Rss:` has no second word.
    NoValue,
    /// The second word of the line is no number that fits in sixty-four bits.
    BadValue,
    /// The size in bytes does not fit in sixty-four bits.
    TooLarge,
}

/// The number of bytes in a kibibyte.
pub const KIB: u64 = 1024;

/// The byte that ends a line.
pub const NEWLINE: u8 = 0x0a;

/// Whether `byte` is ASCII white space: a space, a tab, a line feed, a form
/// feed or a carriage return.
pub open spec fn is_space(byte: u8) -> bool {
    byte == 0x20 || byte == 0x09 || byte == 0x0a || byte == 0x0c || byte == 0x0d
}

/// Whether `byte` is an ASCII digit.
pub open spec fn is_digit(byte: u8) -> bool {
    0x30 <= byte <= 0x39
}

/// Whether a line of `text` starts at `at`: at the start of the text, or
/// behind a newline.
pub open spec fn starts_line(text: Seq<u8>, at: int) -> bool {
    0 <= at < text.len() && (at == 0 || text[at - 1] == NEWLINE)
}

/// Whether `text` reads `Rss:` at `at`.
pub open spec fn reads_rss(text: Seq<u8>, at: int) -> bool {
    &&& 0 <= at
    &&& at + 4 <= text.len()
    &&& text[at] == 0x52
    &&& text[at + 1] == 0x73
    &&& text[at + 2] == 0x73
    &&& text[at + 3] == 0x3a
}

/// Whether a line of `text` that starts with `Rss:` starts at `at`.
pub open spec fn is_rss_line(text: Seq<u8>, at: int) -> bool {
    starts_line(text, at) && reads_rss(text, at)
}

/// Whether `at` is where the first line of `text` that starts with `Rss:`
/// starts.
pub open spec fn is_first_rss_line(text: Seq<u8>, at: int) -> bool {
    is_rss_line(text, at) && forall|before: int| 0 <= before < at ==> !is_rss_line(text, before)
}

/// Where the first line of `text` that starts with `Rss:` starts, if there is
/// such a line.
pub open spec fn first_rss_line(text: Seq<u8>) -> Option<int> {
    if exists|at: int| is_first_rss_line(text, at) {
        Some(choose|at: int| is_first_rss_line(text, at))
    } else {
        None
    }
}

/// The first place from `from` on at which `text` holds a newline, or the
/// length of `text` where there is none.
pub open spec fn line_end(text: Seq<u8>, from: int) -> int
    decreases text.len() - from,
{
    if 0 <= from < text.len() && text[from] != NEWLINE {
        line_end(text, from + 1)
    } else {
        from
    }
}

/// The first place from `from` on at which `line` holds no white space, or
/// the length of `line` where there is none.
pub open spec fn skip_spaces(line: Seq<u8>, from: int) -> int
    decreases line.len() - from,
{
    if 0 <= from < line.len() && is_space(line[from]) {
        skip_spaces(line, from + 1)
    } else {
        from
    }
}

/// The first place from `from` on at which `line` holds white space, or the
/// length of `line` where there is none.
pub open spec fn skip_word(line: Seq<u8>, from: int) -> int
    decreases line.len() - from,
{
    if 0 <= from < line.len() && !is_space(line[from]) {
        skip_word(line, from + 1)
    } else {
        from
    }
}

/// Where the second of the words of `line` starts and ends, the words being
/// what white space separates; `None` where `line` has fewer than two words.
pub open spec fn second_word(line: Seq<u8>) -> Option<(int, int)> {
    let first = skip_spaces(line, 0);
    let gap = skip_word(line, first);
    let second = skip_spaces(line, gap);
    if second < line.len() {
        Some((second, skip_word(line, second)))
    } else {
        None
    }
}

/// The number that the decimal digits `digits` write.
pub open spec fn decimal(digits: Seq<u8>) -> nat
    decreases digits.len(),
{
    if digits.len() == 0 {
        0
    } else {
        decimal(digits.drop_last()) * 10 + (digits.last() - 0x30) as nat
    }
}

/// The number that the decimal digits `digits` write; `None` where `digits`
/// is empty, holds anything but digits, or writes a number that does not fit
/// in sixty-four bits.
pub open spec fn unsigned(digits: Seq<u8>) -> Option<u64> {
    if digits.len() > 0 && (forall|i: int| 0 <= i < digits.len() ==> is_digit(#[trigger] digits[i]))
        && decimal(digits) <= u64::MAX {
        Some(decimal(digits) as u64)
    } else {
        None
    }
}

/// The number that `word` writes: decimal digits, at least one, behind at
/// most one plus sign; `None` where `word` is not of that form or the number
/// does not fit in sixty-four bits.
pub open spec fn number(word: Seq<u8>) -> Option<u64> {
    if word.len() > 0 && word[0] == 0x2b {
        unsigned(word.skip(1))
    } else {
        unsigned(word)
    }
}

/// The resident set size in bytes that the summary `text` states.
pub open spec fn rss_bytes(text: Seq<u8>) -> Result<u64, RollupError> {
    match first_rss_line(text) {
        None => Err(RollupError::NoRssLine),
        Some(at) => {
            let line = text.subrange(at, line_end(text, at));
            match second_word(line) {
                None => Err(RollupError::NoValue),
                Some((from, to)) => match number(line.subrange(from, to)) {
                    None => Err(RollupError::BadValue),
                    Some(kib) => if kib * KIB <= u64::MAX {
                        Ok((kib * KIB) as u64)
                    } else {
                        Err(RollupError::TooLarge)
                    },
                },
            }
        },
    }
}

/// The end of a line lies between its start and the end of the text.
proof fn lemma_line_end_bounds(text: Seq<u8>, from: int)
    requires
        0 <= from <= text.len(),
    ensures
        from <= line_end(text, from) <= text.len(),
        forall|i: int| from <= i < line_end(text, from) ==> text[i] != NEWLINE,
        line_end(text, from) < text.len() ==> text[line_end(text, from)] == NEWLINE,
    decreases text.len() - from,
{
    if from < text.len() && text[from] != NEWLINE {
        lemma_line_end_bounds(text, from + 1);
    }
}

/// The first place from `from` on at which `text` holds a newline, or the
/// length of `text`.
fn find_line_end(text: &[u8], from: usize) -> (end: usize)
    requires
        from <= text@.len(),
    ensures
        end == line_end(text@, from as int),
        from <= end <= text@.len(),
{
    let mut end = from;
    while end < text.len() && text[end] != NEWLINE
        invariant
            from <= end <= text@.len(),
            line_end(text@, end as int) == line_end(text@, from as int),
        decreases text@.len() - end,
    {
        end += 1;
    }
    end
}

/// Where the first line of `text` that starts with `Rss:` starts.
fn find_rss_line(text: &[u8]) -> (found: Option<usize>)
    ensures
        match found {
            Some(at) => first_rss_line(text@) == Some(at as int),
            None => first_rss_line(text@) is None,
        },
{
    let mut at: usize = 0;
    while at < text.len()
        invariant
            at <= text@.len(),
            at < text@.len() ==> starts_line(text@, at as int),
            forall|before: int| 0 <= before < at ==> !is_rss_line(text@, before),
        decreases text@.len() - at,
    {
        if text.len() - at >= 4 && text[at] == 0x52 && text[at + 1] == 0x73 && text[at + 2] == 0x73
            && text[at + 3] == 0x3a {
            proof {
                assert(is_first_rss_line(text@, at as int));
                let chosen = choose|at: int| is_first_rss_line(text@, at);
                assert(chosen == at);
            }
            return Some(at);
        }
        let end = find_line_end(text, at);
        proof {
            lemma_line_end_bounds(text@, at as int);
            assert forall|before: int| at < before <= end implies !starts_line(text@, before) by {}
        }
        if end == text.len() {
            at = end;
        } else {
            at = end + 1;
        }
    }
    proof {
        assert forall|at: int| !is_first_rss_line(text@, at) by {}
    }
    None
}

/// The first place from `from` on at which `line` holds no white space.
fn find_word(line: &[u8], from: usize) -> (at: usize)
    requires
        from <= line@.len(),
    ensures
        at == skip_spaces(line@, from as int),
        from <= at <= line@.len(),
{
    let mut at = from;
    while at < line.len() && (line[at] == 0x20 || line[at] == 0x09 || line[at] == 0x0a || line[at]
        == 0x0c || line[at] == 0x0d)
        invariant
            from <= at <= line@.len(),
            skip_spaces(line@, at as int) == skip_spaces(line@, from as int),
        decreases line@.len() - at,
    {
        at += 1;
    }
    at
}

/// The first place from `from` on at which `line` holds white space.
fn find_space(line: &[u8], from: usize) -> (at: usize)
    requires
        from <= line@.len(),
    ensures
        at == skip_word(line@, from as int),
        from <= at <= line@.len(),
{
    let mut at = from;
    while at < line.len() && !(line[at] == 0x20 || line[at] == 0x09 || line[at] == 0x0a || line[at]
        == 0x0c || line[at] == 0x0d)
        invariant
            from <= at <= line@.len(),
            skip_word(line@, at as int) == skip_word(line@, from as int),
        decreases line@.len() - at,
    {
        at += 1;
    }
    at
}

/// A number grows with every digit that is written behind it.
proof fn lemma_decimal_grows(digits: Seq<u8>, upto: int)
    requires
        0 <= upto <= digits.len(),
    ensures
        decimal(digits.take(upto)) <= decimal(digits),
    decreases digits.len() - upto,
{
    if upto == digits.len() {
        assert(digits.take(upto) =~= digits);
    } else {
        lemma_decimal_grows(digits, upto + 1);
        assert(digits.take(upto + 1).drop_last() =~= digits.take(upto));
    }
}

/// The number that the decimal digits `digits` write.
fn read_digits(digits: &[u8]) -> (value: Option<u64>)
    ensures
        value == unsigned(digits@),
{
    if digits.len() == 0 {
        return None;
    }
    let mut value: u64 = 0;
    let mut i: usize = 0;
    while i < digits.len()
        invariant
            i <= digits@.len(),
            digits@.len() > 0,
            forall|j: int| 0 <= j < i ==> is_digit(#[trigger] digits@[j]),
            value == decimal(digits@.take(i as int)),
        decreases digits@.len() - i,
    {
        let byte = digits[i];
        if byte < 0x30 || byte > 0x39 {
            assert(!is_digit(digits@[i as int]));
            return None;
        }
        let digit = (byte - 0x30) as u64;
        proof {
            assert(digits@.take(i + 1).drop_last() =~= digits@.take(i as int));
            assert(decimal(digits@.take(i + 1)) == value * 10 + digit);
        }
        if value > (u64::MAX - digit) / 10 {
            proof {
                lemma_decimal_grows(digits@, i + 1);
            }
            return None;
        }
        value = value * 10 + digit;
        i += 1;
    }
    proof {
        assert(digits@.take(i as int) =~= digits@);
    }
    Some(value)
}

/// The number that `word` writes.
fn read_number(word: &[u8]) -> (value: Option<u64>)
    ensures
        value == number(word@),
{
    if word.len() > 0 && word[0] == 0x2b {
        let digits = slice_subrange(word, 1, word.len());
        assert(digits@ =~= word@.skip(1));
        read_digits(digits)
    } else {
        read_digits(word)
    }
}

/// The resident set size in bytes that the summary `text` states: the second
/// word of the first line that starts with `Rss:`, read as a number of
/// kibibytes.
pub fn parse_rss(text: &str) -> (result: Result<u64, RollupError>)
    ensures
        result == rss_bytes(text.spec_bytes()),
{
    let bytes = text.as_bytes();
    let at = match find_rss_line(bytes) {
        Some(at) => at,
        None => {
            return Err(RollupError::NoRssLine);
        },
    };
    let end = find_line_end(bytes, at);
    let line = slice_subrange(bytes, at, end);
    let first = find_word(line, 0);
    let gap = find_space(line, first);
    let from = find_word(line, gap);
    if from >= line.len() {
        return Err(RollupError::NoValue);
    }
    let to = find_space(line, from);
    let word = slice_subrange(line, from, to);
    match read_number(word) {
        None => Err(RollupError::BadValue),
        Some(kib) => {
            if kib > u64::MAX / KIB {
                Err(RollupError::TooLarge)
            } else {
                Ok(kib * KIB)
            }
        },
    }
}

/// The character that writes the digit `digit`.
pub open spec fn digit_char(digit: int) -> char {
    if digit == 0 {
        '0'
    } else if digit == 1 {
        '1'
    } else if digit == 2 {
        '2'
    } else if digit == 3 {
        '3'
    } else if digit == 4 {
        '4'
    } else if digit == 5 {
        '5'
    } else if digit == 6 {
        '6'
    } else if digit == 7 {
        '7'
    } else if digit == 8 {
        '8'
    } else {
        '9'
    }
}

/// The decimal digits that write `number`, without leading zeros.
pub open spec fn decimal_text(number: nat) -> Seq<char>
    decreases number,
{
    if number < 10 {
        seq![digit_char(number as int)]
    } else {
        decimal_text(number / 10).push(digit_char((number % 10) as int))
    }
}

/// The text that writes `number`: its decimal digits, behind a minus sign
/// where it is negative.
pub open spec fn number_text(number: int) -> Seq<char> {
    if number < 0 {
        seq!['-'] + decimal_text((-number) as nat)
    } else {
        decimal_text(number as nat)
    }
}

/// The path of the memory summary of process `pid`.
pub open spec fn rollup_path(pid: int) -> Seq<char> {
    "/proc/"@ + number_text(pid) + "/smaps_rollup"@
}

/// The text that writes the digit `digit`.
fn digit_text(digit: u32) -> (text: &'static str)
    requires
        digit < 10,
    ensures
        text@ == seq![digit_char(digit as int)],
{
    proof {
        reveal_strlit("0");
        reveal_strlit("1");
        reveal_strlit("2");
        reveal_strlit("3");
        reveal_strlit("4");
        reveal_strlit("5");
        reveal_strlit("6");
        reveal_strlit("7");
        reveal_strlit("8");
        reveal_strlit("9");
    }
    let text = if digit == 0 {
        "0"
    } else if digit == 1 {
        "1"
    } else if digit == 2 {
        "2"
    } else if digit == 3 {
        "3"
    } else if digit == 4 {
        "4"
    } else if digit == 5 {
        "5"
    } else if digit == 6 {
        "6"
    } else if digit == 7 {
        "7"
    } else if digit == 8 {
        "8"
    } else {
        "9"
    };
    assert(text@ =~= seq![digit_char(digit as int)]);
    text
}

/// Writes `number` in decimal digits behind `text`.
fn push_decimal(text: &mut String, number: u32)
    ensures
        final(text)@ == old(text)@ + decimal_text(number as nat),
    decreases number,
{
    if number >= 10 {
        push_decimal(text, number / 10);
    }
    text.append(digit_text(number % 10));
    assert(text@ =~= old(text)@ + decimal_text(number as nat));
}

/// The path of the memory summary of process `pid`:
/// `/proc/<pid>/smaps_rollup`.
pub fn smaps_rollup_path(pid: i32) -> (path: String)
    ensures
        path@ == rollup_path(pid as int),
{
    let mut path = "/proc/".to_owned();
    if pid < 0 {
        proof {
            reveal_strlit("-");
        }
        path.append("-");
        assert(path@ =~= "/proc/"@ + seq!['-']);
        push_decimal(&mut path, (-(pid as i64)) as u32);
    } else {
        push_decimal(&mut path, pid as u32);
    }
    path.append("/smaps_rollup");
    assert(path@ =~= rollup_path(pid as int));
    path
}

} // verus!
