//! The decisions of the read-eval-print loop: what it prints for a line of
//! input, and when it stops. Reading and printing are the caller's.

use vstd::prelude::*;

use crate::display::{char_string, token_text};
use crate::grammar::scan_spec;
use crate::scan::{models, ScanError, Scanner, Token, TokenModel};
use std::string::String;

verus! {

/// The decimal digit for `d`, which is below ten.
pub open spec fn digit_char(d: nat) -> char {
    if d == 0 {
        '0'
    } else if d == 1 {
        '1'
    } else if d == 2 {
        '2'
    } else if d == 3 {
        '3'
    } else if d == 4 {
        '4'
    } else if d == 5 {
        '5'
    } else if d == 6 {
        '6'
    } else if d == 7 {
        '7'
    } else if d == 8 {
        '8'
    } else {
        '9'
    }
}

/// The decimal numeral of `n`, without leading zeros.
pub open spec fn decimal(n: nat) -> Seq<char>
    decreases n,
{
    if n < 10 {
        seq![digit_char(n)]
    } else {
        decimal(n / 10).push(digit_char(n % 10))
    }
}

/// `text` right-aligned in a field of `width` characters, padded with spaces.
pub open spec fn pad_left(text: Seq<char>, width: nat) -> Seq<char> {
    if text.len() >= width {
        text
    } else {
        Seq::new((width - text.len()) as nat, |i: int| ' ') + text
    }
}

/// The line that the REPL prints for a token: its line number right-aligned
/// in four columns, a space, and the token's text.
pub open spec fn listing_line(t: TokenModel) -> Seq<char> {
    pad_left(decimal(t.line), 4) + seq![' '] + token_text(t)
}

/// The digit character for `d`.
fn digit(d: usize) -> (c: char)
    requires
        d < 10,
    ensures
        c == digit_char(d as nat),
{
    match d {
        0 => '0',
        1 => '1',
        2 => '2',
        3 => '3',
        4 => '4',
        5 => '5',
        6 => '6',
        7 => '7',
        8 => '8',
        _ => '9',
    }
}

/// The decimal numeral of `n`.
pub fn decimal_text(n: usize) -> (text: String)
    ensures
        text@ == decimal(n as nat),
    decreases n,
{
    if n < 10 {
        char_string(digit(n))
    } else {
        let mut text = decimal_text(n / 10);
        let last = char_string(digit(n % 10));
        text.append(last.as_str());
        proof {
            assert(last@ == seq![digit_char((n % 10) as nat)]);
        }
        text
    }
}

/// `text` right-aligned in a field of `width` characters.
pub fn pad_left_text(text: &str, width: usize) -> (padded: String)
    ensures
        padded@ == pad_left(text@, width as nat),
{
    let len = text.unicode_len();
    let mut padded = String::new();
    let mut i: usize = len;
    while i < width
        invariant
            len == text@.len(),
            len <= i,
            i == len || i <= width,
            padded@ == Seq::new((i - len) as nat, |j: int| ' '),
        decreases width - i,
    {
        let space = char_string(' ');
        padded.append(space.as_str());
        i += 1;
        assert(padded@ =~= Seq::new((i - len) as nat, |j: int| ' '));
    }
    let ghost spaces = padded@;
    padded.append(text);
    proof {
        if len >= width {
            assert(spaces =~= Seq::<char>::empty());
            assert(padded@ =~= text@);
        } else {
            assert(padded@ =~= Seq::new((width - len) as nat, |j: int| ' ') + text@);
        }
    }
    padded
}

/// The line that the REPL prints for `token`.
pub fn listing(token: &Token) -> (line: String)
    ensures
        line@ == listing_line(token@),
{
    let number = decimal_text(token.line());
    let mut line = pad_left_text(number.as_str(), 4);
    line.append(" ");
    proof {
        reveal_strlit(" ");
    }
    let text = token.to_string();
    line.append(text.as_str());
    line
}

/// `lines` are the listing lines of `tokens`, one for each, in order.
pub open spec fn is_listing(lines: Seq<String>, tokens: Seq<TokenModel>) -> bool {
    &&& lines.len() == tokens.len()
    &&& forall|i: int| 0 <= i < tokens.len() ==> #[trigger] lines[i]@ == listing_line(tokens[i])
}

/// Scans `source` and gives the lines that the REPL prints for its tokens,
/// or the scan error.
pub fn run(source: &str) -> (r: Result<Vec<String>, ScanError>)
    requires
        source@.len() < usize::MAX,
    ensures
        match scan_spec(source@) {
            Ok(tokens) => r matches Ok(lines) && is_listing(lines@, tokens),
            Err(e) => r == Err::<Vec<String>, ScanError>(e),
        },
{
    let scanner = Scanner::new(source);
    let tokens = match scanner.scan() {
        Ok(tokens) => tokens,
        Err(e) => return Err(e),
    };
    let ghost scanned = models(tokens@);
    let mut lines: Vec<String> = Vec::new();
    let mut i: usize = 0;
    while i < tokens.len()
        invariant
            i <= tokens.len(),
            scanned == models(tokens@),
            lines@.len() == i,
            forall|j: int| 0 <= j < i ==> #[trigger] lines@[j]@ == listing_line(scanned[j]),
        decreases tokens.len() - i,
    {
        lines.push(listing(&tokens[i]));
        i += 1;
    }
    Ok(lines)
}

/// What the REPL read: a line of `bytes` bytes whose text is `text` (no bytes
/// at the end of the input), or a read error.
pub enum ReplInput<'a> {
    Read { bytes: usize, text: &'a str },
    Failed,
}

/// What the REPL does next.
pub enum ReplAction {
    /// Stop: the input has ended.
    Exit,
    /// Print these lines, then read on.
    Print(Vec<String>),
    /// Report this scan error, then read on.
    ReportScanError(ScanError),
    /// Report the read error, then read on.
    ReportReadError,
}

/// The REPL's answer to what it read.
pub fn repl_step(input: ReplInput) -> (action: ReplAction)
    requires
        input matches ReplInput::Read { text, .. } ==> text@.len() < usize::MAX,
    ensures
        match input {
            ReplInput::Read { bytes, text } => if bytes == 0 {
                action is Exit
            } else {
                match scan_spec(text@) {
                    Ok(tokens) => action matches ReplAction::Print(lines) && is_listing(
                        lines@,
                        tokens,
                    ),
                    Err(e) => action == ReplAction::ReportScanError(e),
                }
            },
            ReplInput::Failed => action is ReportReadError,
        },
{
    match input {
        ReplInput::Read { bytes, text } => {
            if bytes == 0 {
                ReplAction::Exit
            } else {
                match run(text) {
                    Ok(lines) => ReplAction::Print(lines),
                    Err(error) => ReplAction::ReportScanError(error),
                }
            }
        },
        ReplInput::Failed => ReplAction::ReportReadError,
    }
}

} // verus!
