//! The lexical grammar, stated over the source's characters.
//!
//! Positions are character indices into the source. `scan_from` is what the
//! scanner computes from a position and a line number onwards; `scan_spec` is
//! the whole scan of a source.

use vstd::prelude::*;

use crate::chars::{continues_identifier, is_ascii_digit, is_white_space, starts_identifier};
use crate::scan::{ScanError, TokenModel, TokenType};

verus! {

/// The first position at or after `pos` that holds no white space.
pub open spec fn skip_white_space(src: Seq<char>, pos: int) -> int
    decreases src.len() - pos,
{
    if 0 <= pos < src.len() && is_white_space(src[pos]) {
        skip_white_space(src, pos + 1)
    } else {
        pos
    }
}

/// The first position at or after `pos` that holds no ASCII digit.
pub open spec fn digits_end(src: Seq<char>, pos: int) -> int
    decreases src.len() - pos,
{
    if 0 <= pos < src.len() && is_ascii_digit(src[pos]) {
        digits_end(src, pos + 1)
    } else {
        pos
    }
}

/// The first position at or after `pos` that cannot continue an identifier.
pub open spec fn identifier_end(src: Seq<char>, pos: int) -> int
    decreases src.len() - pos,
{
    if 0 <= pos < src.len() && continues_identifier(src[pos]) {
        identifier_end(src, pos + 1)
    } else {
        pos
    }
}

/// The end of a string literal whose body starts at `pos` (just after the
/// opening quote): the position after the closing quote, or `None` when the
/// source ends, or holds a NUL character, before a closing quote.
pub open spec fn string_end(src: Seq<char>, pos: int) -> Option<int>
    decreases src.len() - pos,
{
    if 0 <= pos < src.len() && src[pos] != '\0' {
        if src[pos] == '"' {
            Some(pos + 1)
        } else {
            string_end(src, pos + 1)
        }
    } else {
        None
    }
}

/// The end of a number whose first digit stands at `start`. A fraction
/// (a dot and digits) is taken only after a run of at least two digits.
pub open spec fn number_end(src: Seq<char>, start: int) -> int {
    let p = start + 1;
    if 0 <= p < src.len() && is_ascii_digit(src[p]) {
        let q = digits_end(src, p);
        if q < src.len() && src[q] == '.' {
            digits_end(src, q + 1)
        } else {
            q
        }
    } else {
        p
    }
}

/// The number of line feeds in `s`.
pub open spec fn newlines(s: Seq<char>) -> nat
    decreases s.len(),
{
    if s.len() == 0 {
        0
    } else {
        newlines(s.drop_last()) + if s.last() == '\n' {
            1nat
        } else {
            0nat
        }
    }
}

/// The kind of a token that is one character long and needs no look-ahead.
pub open spec fn single_char_type(c: char) -> Option<TokenType> {
    if c == '+' {
        Some(TokenType::Plus)
    } else if c == '-' {
        Some(TokenType::Minus)
    } else if c == '*' {
        Some(TokenType::Star)
    } else if c == '/' {
        Some(TokenType::Slash)
    } else if c == '=' {
        Some(TokenType::Equal)
    } else if c == '(' {
        Some(TokenType::LeftParen)
    } else if c == ')' {
        Some(TokenType::RightParen)
    } else if c == '{' {
        Some(TokenType::LeftBrace)
    } else if c == '}' {
        Some(TokenType::RightBrace)
    } else if c == ';' {
        Some(TokenType::Semicolon)
    } else if c == ',' {
        Some(TokenType::Comma)
    } else if c == '.' {
        Some(TokenType::Dot)
    } else {
        None
    }
}

/// The reserved words and their kinds.
pub open spec fn keyword_type(word: Seq<char>) -> Option<TokenType> {
    if word == seq!['i', 'f'] {
        Some(TokenType::If)
    } else if word == seq!['e', 'l', 's', 'e'] {
        Some(TokenType::Else)
    } else if word == seq!['f', 'n'] {
        Some(TokenType::Fn)
    } else if word == seq!['r', 'e', 't', 'u', 'r', 'n'] {
        Some(TokenType::Return)
    } else if word == seq!['l', 'e', 't'] {
        Some(TokenType::Let)
    } else {
        None
    }
}

/// The kind of a word: its keyword's kind if it is reserved, else `Identifier`.
pub open spec fn word_type(word: Seq<char>) -> TokenType {
    match keyword_type(word) {
        Some(k) => k,
        None => TokenType::Identifier,
    }
}

/// The token that begins at `start`, a position that holds no white space:
/// its kind and the position after it, or the error that stops the scan there.
pub open spec fn lex_token(src: Seq<char>, start: int) -> Result<(TokenType, int), ScanError> {
    let c = src[start];
    let next = start + 1;
    if single_char_type(c) is Some {
        Ok((single_char_type(c)->0, next))
    } else if c == '<' {
        if next < src.len() && src[next] == '=' {
            Ok((TokenType::LessEqual, next + 1))
        } else {
            Ok((TokenType::Less, next))
        }
    } else if c == '>' {
        if next < src.len() && src[next] == '=' {
            Ok((TokenType::GreaterEqual, next + 1))
        } else {
            Ok((TokenType::Greater, next))
        }
    } else if c == '"' {
        match string_end(src, next) {
            Some(end) => Ok((TokenType::String, end)),
            None => Err(ScanError::UnterminatedString),
        }
    } else if is_ascii_digit(c) {
        Ok((TokenType::Number, number_end(src, start)))
    } else if starts_identifier(c) {
        let end = identifier_end(src, next);
        Ok((word_type(src.subrange(start, end)), end))
    } else {
        Err(ScanError::UnexpectedChar(c))
    }
}

/// The line of a token that spans `start..end` when the scanner reached
/// `start` on line `line`: a string literal counts the line feeds in it.
pub open spec fn token_line(src: Seq<char>, start: int, end: int, typ: TokenType, line: nat) -> nat {
    if typ == TokenType::String {
        line + newlines(src.subrange(start, end))
    } else {
        line
    }
}

/// Puts `prefix` in front of the tokens of a successful scan.
pub open spec fn prepend(prefix: Seq<TokenModel>, r: Result<Seq<TokenModel>, ScanError>) -> Result<
    Seq<TokenModel>,
    ScanError,
> {
    match r {
        Ok(rest) => Ok(prefix + rest),
        Err(e) => Err(e),
    }
}

/// The scan of `src` from position `pos`, reached on line `line`: the
/// tokens up to and including `Eof`, or the first error.
pub open spec fn scan_from(src: Seq<char>, pos: int, line: nat) -> Result<Seq<TokenModel>, ScanError>
    decreases src.len() - pos,
{
    let start = skip_white_space(src, pos);
    let at = line + newlines(src.subrange(pos, start));
    if start >= src.len() {
        Ok(seq![TokenModel { typ: TokenType::Eof, line: at, lexeme: Seq::empty() }])
    } else {
        match lex_token(src, start) {
            Err(e) => Err(e),
            Ok((typ, end)) => {
                proof {
                    lemma_skip_white_space_bounds(src, pos);
                    lemma_lex_token_end(src, start);
                }
                let tok = TokenModel {
                    typ,
                    line: token_line(src, start, end, typ, at),
                    lexeme: src.subrange(start, end),
                };
                prepend(seq![tok], scan_from(src, end, tok.line))
            },
        }
    }
}

/// The scan of a whole source, from its first character on line 1.
pub open spec fn scan_spec(src: Seq<char>) -> Result<Seq<TokenModel>, ScanError> {
    scan_from(src, 0, 1)
}

/// Skipping white space moves forward and stays in the source.
pub proof fn lemma_skip_white_space_bounds(src: Seq<char>, pos: int)
    ensures
        pos <= skip_white_space(src, pos),
        pos <= src.len() ==> skip_white_space(src, pos) <= src.len(),
        0 <= pos ==> forall|i: int|
            pos <= i < skip_white_space(src, pos) ==> is_white_space(#[trigger] src[i]),
        0 <= pos ==> skip_white_space(src, pos) < src.len() ==> !is_white_space(
            src[skip_white_space(src, pos)],
        ),
    decreases src.len() - pos,
{
    if 0 <= pos < src.len() && is_white_space(src[pos]) {
        lemma_skip_white_space_bounds(src, pos + 1);
    }
}

/// A run of digits stays in the source.
pub proof fn lemma_digits_end_bounds(src: Seq<char>, pos: int)
    ensures
        pos <= digits_end(src, pos),
        pos <= src.len() ==> digits_end(src, pos) <= src.len(),
        forall|i: int| pos <= i < digits_end(src, pos) ==> is_ascii_digit(#[trigger] src[i]),
        0 <= pos ==> digits_end(src, pos) < src.len() ==> !is_ascii_digit(
            src[digits_end(src, pos)],
        ),
    decreases src.len() - pos,
{
    if 0 <= pos < src.len() && is_ascii_digit(src[pos]) {
        lemma_digits_end_bounds(src, pos + 1);
    }
}

/// An identifier's tail stays in the source.
pub proof fn lemma_identifier_end_bounds(src: Seq<char>, pos: int)
    ensures
        pos <= identifier_end(src, pos),
        pos <= src.len() ==> identifier_end(src, pos) <= src.len(),
        forall|i: int|
            pos <= i < identifier_end(src, pos) ==> continues_identifier(#[trigger] src[i]),
        0 <= pos ==> identifier_end(src, pos) < src.len() ==> !continues_identifier(
            src[identifier_end(src, pos)],
        ),
    decreases src.len() - pos,
{
    if 0 <= pos < src.len() && continues_identifier(src[pos]) {
        lemma_identifier_end_bounds(src, pos + 1);
    }
}

/// A closed string literal ends after its body's start and in the source.
pub proof fn lemma_string_end_bounds(src: Seq<char>, pos: int)
    ensures
        string_end(src, pos) matches Some(end) ==> pos < end <= src.len() && src[end - 1] == '"',
    decreases src.len() - pos,
{
    if 0 <= pos < src.len() && src[pos] != '\0' && src[pos] != '"' {
        lemma_string_end_bounds(src, pos + 1);
    }
}

/// A token ends after its start and in the source.
pub proof fn lemma_lex_token_end(src: Seq<char>, start: int)
    requires
        start < src.len(),
    ensures
        lex_token(src, start) matches Ok((_, end)) ==> start < end <= src.len(),
{
    let next = start + 1;
    lemma_string_end_bounds(src, next);
    lemma_identifier_end_bounds(src, next);
    lemma_digits_end_bounds(src, next);
    if next < src.len() {
        lemma_digits_end_bounds(src, digits_end(src, next) + 1);
    }
}

/// Counting line feeds one character further.
pub proof fn lemma_newlines_extend(src: Seq<char>, a: int, b: int)
    requires
        0 <= a <= b < src.len(),
    ensures
        newlines(src.subrange(a, b + 1)) == newlines(src.subrange(a, b)) + if src[b] == '\n' {
            1nat
        } else {
            0nat
        },
{
    assert(src.subrange(a, b + 1).drop_last() =~= src.subrange(a, b));
}

/// Scanning from `pos` is scanning from past the white space there, on the
/// line that the white space's line feeds lead to.
pub proof fn lemma_rescan_after_white_space(src: Seq<char>, pos: int, line: nat)
    requires
        0 <= pos <= src.len(),
    ensures
        scan_from(src, pos, line) == scan_from(
            src,
            skip_white_space(src, pos),
            line + newlines(src.subrange(pos, skip_white_space(src, pos))),
        ),
{
    let start = skip_white_space(src, pos);
    lemma_skip_white_space_bounds(src, pos);
    assert(skip_white_space(src, start) == start);
    assert(src.subrange(start, start) =~= Seq::<char>::empty());
}

/// Scanning from a position that holds no white space begins with the token
/// there.
pub proof fn lemma_scan_from_token(src: Seq<char>, at: int, line: nat)
    requires
        0 <= at < src.len(),
        !is_white_space(src[at]),
    ensures
        scan_from(src, at, line) == match lex_token(src, at) {
            Err(e) => Err(e),
            Ok((typ, end)) => prepend(
                seq![
                    TokenModel {
                        typ,
                        line: token_line(src, at, end, typ, line),
                        lexeme: src.subrange(at, end),
                    },
                ],
                scan_from(src, end, token_line(src, at, end, typ, line)),
            ),
        },
{
    assert(skip_white_space(src, at) == at);
    assert(src.subrange(at, at) =~= Seq::<char>::empty());
}

/// Prepending in two steps is prepending once.
pub proof fn lemma_prepend_twice(
    a: Seq<TokenModel>,
    b: Seq<TokenModel>,
    r: Result<Seq<TokenModel>, ScanError>,
)
    ensures
        prepend(a, prepend(b, r)) == prepend(a + b, r),
{
    if let Ok(rest) = r {
        assert(a + (b + rest) =~= (a + b) + rest);
    }
}

} // verus!
