//! Reading what the user hands to the client: the command line, and the
//! lines typed while a session runs.

use crate::cmd::command_of;
use crate::cmd::Command;
use crate::cmd::CommandView;
use vstd::prelude::*;
use vstd::string::StrSliceExecFns;
use vstd::string::StringExecFns;

verus! {

/// A line of local input, read.
#[derive(Debug, PartialEq, Eq)]
pub enum ParsedInput {
    /// The line names a command.
    CommandInput(Command),
    /// The line is text for the server.
    RegularInput(String),
}

/// A `ParsedInput` as a mathematical value.
pub enum ParsedInputView {
    CommandInput(CommandView),
    RegularInput(Seq<char>),
}

impl View for ParsedInput {
    type V = ParsedInputView;

    open spec fn view(&self) -> ParsedInputView {
        match self {
            ParsedInput::CommandInput(command) => ParsedInputView::CommandInput(command@),
            ParsedInput::RegularInput(text) => ParsedInputView::RegularInput(text@),
        }
    }
}

/// What `str::trim` returns for `text`: `text` without the white space at its
/// two ends.
pub uninterp spec fn trimmed(text: Seq<char>) -> Seq<char>;

/// Calls `str::trim`, which returns the part of the text between its leading
/// and its trailing white space. The contract names that part; it says
/// nothing of which characters count as white space.
#[verifier::external_body]
fn trim(text: &str) -> (inner: &str)
    ensures
        inner@ == trimmed(text@),
{
    text.trim()
}

/// The number of characters at the head of `text` before the first space.
pub open spec fn word_len(text: Seq<char>) -> nat
    decreases text.len(),
{
    if text.len() == 0 || text[0] == ' ' {
        0
    } else {
        1 + word_len(text.skip(1))
    }
}

/// The first word of `text`: what stands before its first space.
pub open spec fn first_word(text: Seq<char>) -> Seq<char> {
    text.take(word_len(text) as int)
}

/// Whether a word names a command: it starts with one slash, not with two.
pub open spec fn is_command_word(word: Seq<char>) -> bool {
    &&& word.len() >= 1
    &&& word[0] == '/'
    &&& !(word.len() >= 2 && word[1] == '/')
}

/// The command that a trimmed line names, if it names one: its first word
/// without the slash. What follows the word is dropped.
pub open spec fn named_command(inner: Seq<char>) -> Option<CommandView> {
    let word = first_word(inner);
    if is_command_word(word) {
        Some(command_of(word.skip(1)))
    } else {
        None
    }
}

/// How a line is read, given the line without the white space at its ends.
/// Where the trimmed line names a command, the line is that command. Any
/// other line is text for the server, as it was typed.
pub open spec fn classify(inner: Seq<char>, line: Seq<char>) -> ParsedInputView {
    match named_command(inner) {
        Some(command) => ParsedInputView::CommandInput(command),
        None => ParsedInputView::RegularInput(line),
    }
}

/// A prefix of `n` characters without a space that ends the text or stands
/// before a space is the first word.
pub proof fn lemma_word_len_is(text: Seq<char>, n: int)
    requires
        0 <= n <= text.len(),
        forall|k: int| 0 <= k < n ==> text[k] != ' ',
        n == text.len() || text[n] == ' ',
    ensures
        word_len(text) == n,
    decreases n,
{
    if n > 0 {
        let tail = text.skip(1);
        assert forall|k: int| 0 <= k < n - 1 implies tail[k] != ' ' by {
            assert(tail[k] == text[k + 1]);
        }
        lemma_word_len_is(tail, n - 1);
    }
}

/// Finds the command that a trimmed line names, if it names one.
pub fn find_command(inner: &str) -> (found: Option<Command>)
    ensures
        found is Some <==> named_command(inner@) is Some,
        found matches Some(command) ==> Some(command@) == named_command(inner@),
{
    let n = inner.unicode_len();
    let mut end: usize = 0;
    while end < n && inner.get_char(end) != ' '
        invariant
            n == inner@.len(),
            end <= n,
            forall|k: int| 0 <= k < end ==> inner@[k] != ' ',
        decreases n - end,
    {
        end = end + 1;
    }
    proof {
        lemma_word_len_is(inner@, end as int);
    }
    let slash = end >= 1 && inner.get_char(0) == '/';
    let doubled = end >= 2 && inner.get_char(1) == '/';
    if slash && !doubled {
        let name = String::from_str(inner.substring_char(1, end));
        proof {
            assert(first_word(inner@).skip(1) == inner@.subrange(1, end as int));
        }
        Some(Command::from_string(name))
    } else {
        None
    }
}

/// Reads a line of local input.
///
/// The line is trimmed, and its first word decides: a word that starts with
/// one slash names a command, and the line is that command. Any other line,
/// one that starts with two slashes too, is text for the server and is kept
/// as it was typed.
pub fn parse_input(inp: String) -> (parsed: ParsedInput)
    ensures
        parsed@ == classify(trimmed(inp@), inp@),
{
    let found = find_command(trim(inp.as_str()));
    match found {
        Some(command) => ParsedInput::CommandInput(command),
        None => ParsedInput::RegularInput(inp),
    }
}

/// The value of a decimal digit.
pub open spec fn digit_value(c: char) -> nat {
    (c as nat - '0' as nat) as nat
}

/// Whether `c` is one of the digits `0` to `9`.
pub open spec fn is_digit(c: char) -> bool {
    '0' <= c <= '9'
}

/// Whether every character of `text` is a decimal digit.
pub open spec fn all_digits(text: Seq<char>) -> bool {
    forall|k: int| 0 <= k < text.len() ==> is_digit(#[trigger] text[k])
}

/// The number that the decimal digits of `digits` write.
pub open spec fn decimal_value(digits: Seq<char>) -> nat
    decreases digits.len(),
{
    if digits.len() == 0 {
        0
    } else {
        decimal_value(digits.drop_last()) * 10 + digit_value(digits.last())
    }
}

/// `text` without the plus sign that may stand before its digits.
pub open spec fn unsigned_part(text: Seq<char>) -> Seq<char> {
    if text.len() > 0 && text[0] == '+' {
        text.skip(1)
    } else {
        text
    }
}

/// The port that `text` writes: one or more decimal digits, with or without
/// a plus sign before them, whose number is at most 65535. Any other text
/// writes no port.
pub open spec fn port_number(text: Seq<char>) -> Option<u16> {
    let digits = unsigned_part(text);
    if digits.len() > 0 && all_digits(digits) && decimal_value(digits) <= u16::MAX {
        Some(decimal_value(digits) as u16)
    } else {
        None
    }
}

/// The number that some digits write is at least the number that the first
/// `k` of them write.
pub proof fn lemma_decimal_value_grows(digits: Seq<char>, k: int)
    requires
        0 <= k <= digits.len(),
    ensures
        decimal_value(digits.take(k)) <= decimal_value(digits),
    decreases digits.len(),
{
    if k == digits.len() {
        assert(digits.take(k) == digits);
    } else {
        lemma_decimal_value_grows(digits.drop_last(), k);
        assert(digits.drop_last().take(k) == digits.take(k));
    }
}

/// Reads a port number.
pub fn parse_port(text: &str) -> (port: Option<u16>)
    ensures
        port == port_number(text@),
{
    let n = text.unicode_len();
    let first: usize = if n > 0 && text.get_char(0) == '+' {
        1
    } else {
        0
    };
    if first == n {
        return None;
    }
    let ghost digits = unsigned_part(text@);
    let mut value: u32 = 0;
    let mut i: usize = first;
    while i < n
        invariant
            n == text@.len(),
            first <= i <= n,
            digits == unsigned_part(text@),
            digits == text@.skip(first as int),
            forall|k: int| 0 <= k < i - first ==> is_digit(#[trigger] digits[k]),
            value == decimal_value(digits.take(i - first)),
            value <= u16::MAX,
        decreases n - i,
    {
        let c = text.get_char(i);
        proof {
            assert(digits[i - first] == c);
            assert(digits.take(i - first + 1).drop_last() == digits.take(i - first));
            assert(digits.take(i - first + 1).last() == c);
        }
        if !('0' <= c && c <= '9') {
            assert(!is_digit(digits[i - first]));
            return None;
        }
        let digit: u32 = c as u32 - '0' as u32;
        value = value * 10 + digit;
        if value > 65535 {
            proof {
                assert(decimal_value(digits.take(i - first + 1)) == value);
                lemma_decimal_value_grows(digits, i - first + 1);
            }
            return None;
        }
        i = i + 1;
    }
    proof {
        assert(digits.take(n - first) == digits);
    }
    Some(value as u16)
}

/// What the client prints when it is started with the wrong arguments.
pub open spec fn usage() -> Seq<char> {
    "Usage: quagmire <host> <port>"@
}

/// Reads the host and the port from the command line: the program's name,
/// a host and a port, and nothing more. Anything else is answered with the
/// usage line.
pub fn extract_args(args: &Vec<String>) -> (parsed: Result<(String, u16), String>)
    ensures
        parsed is Ok <==> args@.len() == 3 && port_number(args@[2]@) is Some,
        parsed matches Ok(found) ==> found.0@ == args@[1]@ && Some(found.1) == port_number(
            args@[2]@,
        ),
        parsed matches Err(message) ==> message@ == usage(),
{
    if args.len() != 3 {
        return Err(String::from_str("Usage: quagmire <host> <port>"));
    }
    match parse_port(args[2].as_str()) {
        Some(port) => Ok((args[1].clone(), port)),
        None => Err(String::from_str("Usage: quagmire <host> <port>")),
    }
}

} // verus!
