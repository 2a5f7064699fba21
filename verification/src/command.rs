//! The commands of the administrative channel: one line of text for each,
//! `balloon` with a target size or `shutdown`.

use vstd::prelude::*;

verus! {

/// A command of the administrative channel.
#[derive(Clone, Copy, Debug, PartialEq, Eq, Structural)]
pub enum Command {
    /// Set the balloon's target size.
    Balloon(u64),
    /// Shut the virtual machine down.
    Shutdown,
}

/// Why a line is no command.
#[derive(Clone, Copy, Debug, PartialEq, Eq, Structural)]
pub enum CommandError {
    /// The line holds no word.
    Empty,
    /// The first word names no command.
    UnknownCommand,
    /// `balloon` stands without a target size.
    MissingNumber,
    /// The target size is no decimal number that fits in 64 bits.
    InvalidNumber,
}

/// Whether a byte separates words: a blank, a tab, or one of the ASCII
/// line and page breaks.
pub open spec fn is_space(byte: u8) -> bool {
    byte == 0x20 || 0x09 <= byte <= 0x0d
}

/// The first position at or after `from` that holds no separator, or the
/// line's length.
pub open spec fn skip_spaces(line: Seq<u8>, from: int) -> int
    decreases line.len() - from,
{
    if 0 <= from < line.len() && is_space(line[from]) {
        skip_spaces(line, from + 1)
    } else {
        from
    }
}

/// The first position at or after `from` that holds a separator, or the
/// line's length.
pub open spec fn word_end(line: Seq<u8>, from: int) -> int
    decreases line.len() - from,
{
    if 0 <= from < line.len() && !is_space(line[from]) {
        word_end(line, from + 1)
    } else {
        from
    }
}

/// The word `balloon`.
pub open spec fn balloon_word() -> Seq<u8> {
    seq![0x62u8, 0x61u8, 0x6cu8, 0x6cu8, 0x6fu8, 0x6fu8, 0x6eu8]
}

/// The word `shutdown`.
pub open spec fn shutdown_word() -> Seq<u8> {
    seq![0x73u8, 0x68u8, 0x75u8, 0x74u8, 0x64u8, 0x6fu8, 0x77u8, 0x6eu8]
}

/// Whether every byte is a decimal digit.
pub open spec fn all_digits(text: Seq<u8>) -> bool {
    forall|k: int| 0 <= k < text.len() ==> 0x30 <= #[trigger] text[k] <= 0x39
}

/// The number that a run of decimal digits writes.
pub open spec fn decimal_value(digits: Seq<u8>) -> nat
    decreases digits.len(),
{
    if digits.len() == 0 {
        0
    } else {
        (decimal_value(digits.drop_last()) * 10 + (digits.last() - 0x30)) as nat
    }
}

/// The digits of a number's text: the text without a leading plus sign.
pub open spec fn number_digits(text: Seq<u8>) -> Seq<u8> {
    if text.len() > 0 && text[0] == 0x2b {
        text.skip(1)
    } else {
        text
    }
}

/// The number that a text writes: an optional plus sign, then at least one
/// decimal digit and nothing else, with a value that fits in 64 bits.
pub open spec fn number_value(text: Seq<u8>) -> Option<u64> {
    let digits = number_digits(text);
    if digits.len() == 0 || !all_digits(digits) || decimal_value(digits) > u64::MAX {
        None
    } else {
        Some(decimal_value(digits) as u64)
    }
}

/// The command that a line writes. The first word names the command; for
/// `balloon` the second word is the target size. What follows is not read.
pub open spec fn parsed(line: Seq<u8>) -> Result<Command, CommandError> {
    let start = skip_spaces(line, 0);
    let end = word_end(line, start);
    let word = line.subrange(start, end);
    if start >= line.len() {
        Err(CommandError::Empty)
    } else if word == balloon_word() {
        let number_start = skip_spaces(line, end);
        let number_end = word_end(line, number_start);
        if number_start >= line.len() {
            Err(CommandError::MissingNumber)
        } else {
            match number_value(line.subrange(number_start, number_end)) {
                Some(size) => Ok(Command::Balloon(size)),
                None => Err(CommandError::InvalidNumber),
            }
        }
    } else if word == shutdown_word() {
        Ok(Command::Shutdown)
    } else {
        Err(CommandError::UnknownCommand)
    }
}

/// The value of the first digits of a run is at most the value of the
/// whole run.
pub proof fn lemma_decimal_value_prefix(digits: Seq<u8>, n: int)
    requires
        all_digits(digits),
        0 <= n <= digits.len(),
    ensures
        decimal_value(digits.take(n)) <= decimal_value(digits),
    decreases digits.len(),
{
    if n == digits.len() {
        assert(digits.take(n) =~= digits);
    } else {
        assert(digits.drop_last().take(n) =~= digits.take(n));
        assert(0x30 <= digits[digits.len() - 1]);
        lemma_decimal_value_prefix(digits.drop_last(), n);
    }
}

/// Whether a byte separates words.
pub fn is_space_byte(byte: u8) -> (space: bool)
    ensures
        space == is_space(byte),
{
    byte == 0x20 || (0x09 <= byte && byte <= 0x0d)
}

/// Finds the first position at or after `from` that holds no separator.
fn skip_spaces_from(line: &[u8], from: usize) -> (at: usize)
    requires
        from <= line@.len(),
    ensures
        at == skip_spaces(line@, from as int),
        from <= at <= line@.len(),
{
    let mut at = from;
    while at < line.len() && is_space_byte(line[at])
        invariant
            from <= at <= line@.len(),
            skip_spaces(line@, at as int) == skip_spaces(line@, from as int),
        decreases line@.len() - at,
    {
        at += 1;
    }
    at
}

/// Finds the first position at or after `from` that holds a separator.
fn word_end_from(line: &[u8], from: usize) -> (at: usize)
    requires
        from <= line@.len(),
    ensures
        at == word_end(line@, from as int),
        from <= at <= line@.len(),
{
    let mut at = from;
    while at < line.len() && !is_space_byte(line[at])
        invariant
            from <= at <= line@.len(),
            word_end(line@, at as int) == word_end(line@, from as int),
        decreases line@.len() - at,
    {
        at += 1;
    }
    at
}

/// Says whether the bytes of `line` from `start` to `end` are those of
/// `word`.
fn is_word(line: &[u8], start: usize, end: usize, word: &[u8]) -> (same: bool)
    requires
        start <= end <= line@.len(),
    ensures
        same == (line@.subrange(start as int, end as int) == word@),
{
    if end - start != word.len() {
        return false;
    }
    let mut k: usize = 0;
    while k < word.len()
        invariant
            start <= end <= line@.len(),
            end - start == word@.len(),
            k <= word@.len(),
            forall|m: int| 0 <= m < k ==> line@[start + m] == word@[m],
        decreases word@.len() - k,
    {
        if line[start + k] != word[k] {
            assert(line@.subrange(start as int, end as int)[k as int] != word@[k as int]);
            return false;
        }
        k += 1;
    }
    assert(line@.subrange(start as int, end as int) =~= word@);
    true
}

/// Reads the number that the bytes of `line` from `start` to `end` write.
fn read_number(line: &[u8], start: usize, end: usize) -> (value: Option<u64>)
    requires
        start <= end <= line@.len(),
    ensures
        value == number_value(line@.subrange(start as int, end as int)),
{
    let ghost text = line@.subrange(start as int, end as int);
    let first = if start < end && line[start] == 0x2b {
        start + 1
    } else {
        start
    };
    let ghost digits = number_digits(text);
    assert(digits =~= line@.subrange(first as int, end as int));
    if first == end {
        return None;
    }
    let mut value: u64 = 0;
    let mut at = first;
    while at < end
        invariant
            start <= first <= at <= end <= line@.len(),
            text == line@.subrange(start as int, end as int),
            digits == number_digits(text),
            digits == line@.subrange(first as int, end as int),
            all_digits(digits.take(at - first)),
            value == decimal_value(digits.take(at - first)),
        decreases end - at,
    {
        let byte = line[at];
        if byte < 0x30 || byte > 0x39 {
            assert(digits[at - first] == byte);
            return None;
        }
        let digit: u64 = (byte - 0x30) as u64;
        proof {
            let longer = digits.take(at - first + 1);
            assert(longer.drop_last() =~= digits.take(at - first));
            assert(longer.last() == byte);
            assert forall|k: int| 0 <= k < longer.len() implies 0x30 <= #[trigger] longer[k]
                <= 0x39 by {
                if k < at - first {
                    assert(digits.take(at - first)[k] == longer[k]);
                }
            }
        }
        if value > (u64::MAX - digit) / 10 {
            proof {
                let longer = digits.take(at - first + 1);
                assert(decimal_value(longer) > u64::MAX);
                if all_digits(digits) {
                    lemma_decimal_value_prefix(digits, at - first + 1);
                }
            }
            return None;
        }
        value = value * 10 + digit;
        at += 1;
    }
    assert(digits.take(at - first) =~= digits);
    Some(value)
}

/// Parses one line of the administrative channel.
pub fn parse_command(line: &[u8]) -> (result: Result<Command, CommandError>)
    ensures
        result == parsed(line@),
{
    let balloon: [u8; 7] = [0x62, 0x61, 0x6c, 0x6c, 0x6f, 0x6f, 0x6e];
    let shutdown: [u8; 8] = [0x73, 0x68, 0x75, 0x74, 0x64, 0x6f, 0x77, 0x6e];
    assert(balloon@ =~= balloon_word());
    assert(shutdown@ =~= shutdown_word());
    let start = skip_spaces_from(line, 0);
    if start >= line.len() {
        return Err(CommandError::Empty);
    }
    let end = word_end_from(line, start);
    if is_word(line, start, end, balloon.as_slice()) {
        let number_start = skip_spaces_from(line, end);
        if number_start >= line.len() {
            return Err(CommandError::MissingNumber);
        }
        let number_end = word_end_from(line, number_start);
        match read_number(line, number_start, number_end) {
            Some(size) => Ok(Command::Balloon(size)),
            None => Err(CommandError::InvalidNumber),
        }
    } else if is_word(line, start, end, shutdown.as_slice()) {
        Ok(Command::Shutdown)
    } else {
        Err(CommandError::UnknownCommand)
    }
}

} // verus!
