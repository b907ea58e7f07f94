//! The physical disk behind a drive letter or a volume.
//!
//! The disk number is asked of the storage cmdlets through a shell. This
//! module writes the script and reads what the shell printed; running the
//! shell is left to the caller.

use crate::win32::encoding::push_char;
use vstd::prelude::*;
use vstd::string::*;
use vstd::utf8::{decode_utf8, valid_utf8};

verus! {

/// `std::io::Error`: the failure to run the shell, carried as it came.
#[verifier::external_type_specification]
#[verifier::external_body]
pub struct ExIoError(std::io::Error);

/// `std::string::FromUtf8Error`: what `String::from_utf8` says of bytes
/// that are not UTF-8, carried as it came.
#[verifier::external_type_specification]
#[verifier::external_body]
pub struct ExFromUtf8Error(std::string::FromUtf8Error);

/// Why a text is no disk number.
#[derive(Debug, Clone, Copy, PartialEq, Eq, Structural)]
pub enum ParseFailure {
    /// It is empty.
    Empty,
    /// It holds a character that is no decimal digit, or nothing after
    /// its plus sign.
    InvalidDigit,
    /// Its digits spell a number too large for the machine's word.
    Overflow,
}

/// Why a disk number could not be found.
#[derive(Debug)]
pub enum Error {
    /// The shell could not be run.
    IOError(std::io::Error),
    /// The shell printed something that is not a number.
    ParseError(ParseFailure),
    /// The shell printed bytes that are not UTF-8.
    UTF8Error(std::string::FromUtf8Error),
    /// The shell printed nothing but white space: the volume has no disk
    /// behind it, or the caller may not ask.
    EmptyOutput,
}

/// Whether `c` is white space: a character with the Unicode property
/// `White_Space`.
pub open spec fn is_space(c: char) -> bool {
    let code = c as u32;
    ||| 0x09 <= code <= 0x0d
    ||| code == 0x20
    ||| code == 0x85
    ||| code == 0xa0
    ||| code == 0x1680
    ||| 0x2000 <= code <= 0x200a
    ||| code == 0x2028
    ||| code == 0x2029
    ||| code == 0x202f
    ||| code == 0x205f
    ||| code == 0x3000
}

/// A text without the white space at its start.
pub open spec fn trim_start(text: Seq<char>) -> Seq<char>
    decreases text.len(),
{
    if text.len() > 0 && is_space(text.first()) {
        trim_start(text.drop_first())
    } else {
        text
    }
}

/// A text without the white space at its end.
pub open spec fn trim_end(text: Seq<char>) -> Seq<char>
    decreases text.len(),
{
    if text.len() > 0 && is_space(text.last()) {
        trim_end(text.drop_last())
    } else {
        text
    }
}

/// A text without the white space around it.
pub open spec fn trimmed(text: Seq<char>) -> Seq<char> {
    trim_end(trim_start(text))
}

/// Whether `c` is a decimal digit.
pub open spec fn is_digit(c: char) -> bool {
    '0' <= c && c <= '9'
}

/// The number that a row of decimal digits spells.
pub open spec fn digits_value(digits: Seq<char>) -> nat
    decreases digits.len(),
{
    if digits.len() == 0 {
        0
    } else {
        (digits_value(digits.drop_last()) * 10 + (digits.last() as int - '0' as int)) as nat
    }
}

/// The digits of a number text: the text without a plus sign at its start.
pub open spec fn unsigned_part(text: Seq<char>) -> Seq<char> {
    if text.len() > 0 && text.first() == '+' {
        text.drop_first()
    } else {
        text
    }
}

/// How many decimal digits a text starts with.
pub open spec fn digit_run(text: Seq<char>) -> int
    decreases text.len(),
{
    if text.len() > 0 && is_digit(text.first()) {
        1 + digit_run(text.drop_first())
    } else {
        0
    }
}

/// The disk number that a text spells: that of its decimal digits, with or
/// without a plus sign before them. The text is read from the left, and
/// what goes wrong first decides: digits that outgrow the machine's word
/// are an overflow whatever follows them, and a character that is no digit
/// is invalid if the digits before it still fit.
pub open spec fn index_of_text(text: Seq<char>) -> Result<usize, ParseFailure> {
    let digits = unsigned_part(text);
    let leading = digits.take(digit_run(digits));
    if text.len() == 0 {
        Err(ParseFailure::Empty)
    } else if digits.len() == 0 {
        Err(ParseFailure::InvalidDigit)
    } else if digits_value(leading) > usize::MAX {
        Err(ParseFailure::Overflow)
    } else if leading.len() < digits.len() {
        Err(ParseFailure::InvalidDigit)
    } else {
        Ok(digits_value(leading) as usize)
    }
}

/// A run of the shell: the program, the switch that announces a script, and
/// the script.
#[derive(Debug)]
pub struct ShellCall {
    pub program: String,
    pub switch: String,
    pub script: String,
}

/// The script that asks for the disk number of the partition with a drive
/// letter.
pub open spec fn driveletter_script(drive_letter: char) -> Seq<char> {
    "(Get-Partition -DriveLetter "@ + seq![drive_letter] + ").DiskNumber"@
}

/// The script that asks for the disk number of the partition of the volume
/// at a path. The path stands between double quotes, as it is.
pub open spec fn win32_path_script(win32_path: Seq<char>) -> Seq<char> {
    "(Get-Partition -volume (Get-Volume -Path \""@ + win32_path + "\")).DiskNumber"@
}

/// Whether `call` runs `script` in the shell.
pub open spec fn runs_script(call: ShellCall, script: Seq<char>) -> bool {
    &&& call.program@ == "powershell.exe"@
    &&& call.switch@ == "-command"@
    &&& call.script@ == script
}

fn shell_call(script: String) -> (call: ShellCall)
    ensures
        runs_script(call, script@),
{
    ShellCall {
        program: String::from_str("powershell.exe"),
        switch: String::from_str("-command"),
        script,
    }
}

/// The run of the shell that prints the disk number behind a drive letter.
pub fn driveletter_query(drive_letter: char) -> (call: ShellCall)
    ensures
        runs_script(call, driveletter_script(drive_letter)),
{
    let mut script = String::from_str("(Get-Partition -DriveLetter ");
    push_char(&mut script, drive_letter);
    script.append(").DiskNumber");
    assert(script@ =~= driveletter_script(drive_letter));
    shell_call(script)
}

/// The run of the shell that prints the disk number behind the volume at
/// `win32_path`.
pub fn win32_path_query(win32_path: &str) -> (call: ShellCall)
    ensures
        runs_script(call, win32_path_script(win32_path@)),
{
    let mut script = String::from_str("(Get-Partition -volume (Get-Volume -Path \"");
    script.append(win32_path);
    script.append("\")).DiskNumber");
    shell_call(script)
}

/// Reads bytes as UTF-8 text, with `String::from_utf8`: the text that the
/// bytes encode, or the error of bytes that are not UTF-8.
#[verifier::external_body]
fn utf8_text(bytes: Vec<u8>) -> (text: Result<String, std::string::FromUtf8Error>)
    ensures
        text is Ok <==> valid_utf8(bytes@),
        text matches Ok(t) ==> t@ == decode_utf8(bytes@),
{
    String::from_utf8(bytes)
}

fn is_space_char(c: char) -> (space: bool)
    ensures
        space == is_space(c),
{
    let code: u32 = c as u32;
    (0x09 <= code && code <= 0x0d) || code == 0x20 || code == 0x85 || code == 0xa0 || code
        == 0x1680 || (0x2000 <= code && code <= 0x200a) || code == 0x2028 || code == 0x2029
        || code == 0x202f || code == 0x205f || code == 0x3000
}

/// `text` without the white space around it.
pub fn trim_whitespace(text: &str) -> (inner: &str)
    ensures
        inner@ == trimmed(text@),
{
    let len: usize = text.unicode_len();
    let mut start: usize = 0;
    assert(text@.skip(0) =~= text@);
    while start < len && is_space_char(text.get_char(start))
        invariant
            start <= len == text@.len(),
            trim_start(text@) == trim_start(text@.skip(start as int)),
        decreases len - start,
    {
        assert(text@.skip(start as int).drop_first() =~= text@.skip(start + 1));
        start += 1;
    }
    let mut end: usize = len;
    assert(text@.skip(start as int) =~= text@.subrange(start as int, end as int));
    while end > start && is_space_char(text.get_char(end - 1))
        invariant
            start <= end <= len == text@.len(),
            trim_start(text@) == trim_start(text@.skip(start as int)),
            start < len ==> !is_space(text@[start as int]),
            trimmed(text@) == trim_end(text@.subrange(start as int, end as int)),
        decreases end,
    {
        assert(text@.subrange(start as int, end as int).drop_last() =~= text@.subrange(
            start as int,
            end - 1,
        ));
        end -= 1;
    }
    text.substring_char(start, end)
}

/// The digits that a text starts with are digits, and what follows them,
/// if anything, is none.
pub proof fn lemma_digit_run(text: Seq<char>)
    ensures
        0 <= digit_run(text) <= text.len(),
        forall|k: int| 0 <= k < digit_run(text) ==> is_digit(#[trigger] text[k]),
        digit_run(text) < text.len() ==> !is_digit(text[digit_run(text)]),
    decreases text.len(),
{
    if text.len() > 0 && is_digit(text.first()) {
        let rest = text.drop_first();
        lemma_digit_run(rest);
        assert forall|k: int| 0 <= k < digit_run(text) implies is_digit(#[trigger] text[k]) by {
            if k > 0 {
                assert(text[k] == rest[k - 1]);
            }
        }
        if digit_run(text) < text.len() {
            assert(text[digit_run(text)] == rest[digit_run(rest)]);
        }
    }
}

/// More digits spell no smaller number.
proof fn lemma_digits_value_grows(digits: Seq<char>, fewer: int, more: int)
    requires
        0 <= fewer <= more <= digits.len(),
        forall|k: int| 0 <= k < more ==> is_digit(#[trigger] digits[k]),
    ensures
        digits_value(digits.take(fewer)) <= digits_value(digits.take(more)),
    decreases more - fewer,
{
    if fewer < more {
        lemma_digits_value_grows(digits, fewer, more - 1);
        assert(digits.take(more).drop_last() =~= digits.take(more - 1));
        assert(digits.take(more).last() == digits[more - 1]);
    }
}

/// The disk number that `text` spells: decimal digits, with or without a
/// plus sign before them, that fit the machine's word.
pub fn parse_index(text: &str) -> (index: Result<usize, ParseFailure>)
    ensures
        index == index_of_text(text@),
{
    let len: usize = text.unicode_len();
    if len == 0 {
        return Err(ParseFailure::Empty);
    }
    let first: usize = if text.get_char(0) == '+' {
        1
    } else {
        0
    };
    if first == len {
        return Err(ParseFailure::InvalidDigit);
    }
    let ghost digits = unsigned_part(text@);
    assert(digits =~= text@.skip(first as int));
    proof {
        lemma_digit_run(digits);
    }
    let mut value: usize = 0;
    let mut i: usize = first;
    assert(digits.take(0) =~= Seq::<char>::empty());
    while i < len
        invariant
            first <= i <= len == text@.len(),
            digits == unsigned_part(text@),
            digits == text@.skip(first as int),
            forall|k: int| 0 <= k < i - first ==> is_digit(#[trigger] digits[k]),
            value == digits_value(digits.take(i - first)),
        decreases len - i,
    {
        let c: char = text.get_char(i);
        assert(digits[i - first] == c);
        if !('0' <= c && c <= '9') {
            proof {
                lemma_digit_run(digits);
                let run = digit_run(digits);
                if run < i - first {
                    assert(is_digit(digits[run]));
                } else if run > i - first {
                    assert(is_digit(digits[i - first]));
                }
            }
            return Err(ParseFailure::InvalidDigit);
        }
        let digit: usize = (c as u8 - 48u8) as usize;
        proof {
            let longer = digits.take(i - first + 1);
            assert(longer.drop_last() =~= digits.take(i - first));
            assert(longer.last() == c);
        }
        let grown: Option<usize> = match value.checked_mul(10) {
            Some(tens) => tens.checked_add(digit),
            None => None,
        };
        match grown {
            Some(sum) => {
                value = sum;
            },
            None => {
                proof {
                    lemma_digit_run(digits);
                    let run = digit_run(digits);
                    if run <= i - first {
                        assert(is_digit(digits[run]));
                    }
                    lemma_digits_value_grows(digits, i - first + 1, run);
                }
                return Err(ParseFailure::Overflow);
            },
        }
        i += 1;
    }
    proof {
        lemma_digit_run(digits);
        let run = digit_run(digits);
        if run < digits.len() {
            assert(is_digit(digits[run]));
        }
        assert(digits.take(run) =~= digits);
        assert(digits.take(len - first) =~= digits);
    }
    Ok(value)
}

/// The disk number in what the shell printed, as text: the number that the
/// text spells once the white space around it is gone. A text of white
/// space alone is told apart from one that is no number.
pub fn diskindex_from_text(output: &str) -> (index: Result<usize, Error>)
    ensures
        trimmed(output@).len() == 0 ==> index matches Err(Error::EmptyOutput),
        trimmed(output@).len() > 0 ==> match index_of_text(trimmed(output@)) {
            Ok(n) => index matches Ok(m) && m == n,
            Err(failure) => index matches Err(Error::ParseError(f)) && f == failure,
        },
{
    let inner = trim_whitespace(output);
    if inner.unicode_len() == 0 {
        return Err(Error::EmptyOutput);
    }
    match parse_index(inner) {
        Ok(n) => Ok(n),
        Err(failure) => Err(Error::ParseError(failure)),
    }
}

/// The disk number in the outcome of running the shell: the shell's
/// failure to run, bytes that are no UTF-8, empty output and output that
/// is no number each have an error of their own.
pub fn diskindex_from_output(outcome: Result<Vec<u8>, std::io::Error>) -> (index: Result<
    usize,
    Error,
>)
    ensures
        match outcome {
            Err(failure) => index matches Err(Error::IOError(e)) && e == failure,
            Ok(bytes) => if !valid_utf8(bytes@) {
                index matches Err(Error::UTF8Error(_))
            } else if trimmed(decode_utf8(bytes@)).len() == 0 {
                index matches Err(Error::EmptyOutput)
            } else {
                match index_of_text(trimmed(decode_utf8(bytes@))) {
                    Ok(n) => index matches Ok(m) && m == n,
                    Err(failure) => index matches Err(Error::ParseError(f)) && f == failure,
                }
            },
        },
{
    match outcome {
        Err(failure) => Err(Error::IOError(failure)),
        Ok(bytes) => match utf8_text(bytes) {
            Err(failure) => Err(Error::UTF8Error(failure)),
            Ok(text) => diskindex_from_text(text.as_str()),
        },
    }
}

} // verus!
