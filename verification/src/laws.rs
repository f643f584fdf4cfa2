//! What holds of every scan.

use vstd::prelude::*;

use crate::chars::{
    continues_identifier, is_alphabetic, is_ascii_digit, is_white_space, starts_identifier,
};
use crate::compilation::{
    compile_spec, is_float_literal, is_sign, is_unsigned_decimal, mantissa_end, InstructionModel,
};
use crate::grammar::{
    digits_end, identifier_end, keyword_type, lemma_digits_end_bounds, lemma_identifier_end_bounds,
    lemma_lex_token_end, lemma_newlines_extend, lemma_skip_white_space_bounds,
    lemma_string_end_bounds, lex_token, newlines,
    number_end, scan_from, scan_spec, single_char_type, skip_white_space, string_end, token_line,
    word_type,
};
use crate::scan::{char_at, ScanError, TokenModel, TokenType};

verus! {

/// Every token of a scan from `pos` ends the scan exactly when it is `Eof`,
/// and only `Eof` has an empty lexeme.
proof fn lemma_eof_from(src: Seq<char>, pos: int, line: nat)
    requires
        0 <= pos <= src.len(),
    ensures
        scan_from(src, pos, line) matches Ok(tokens) ==> {
            &&& tokens.len() >= 1
            &&& tokens.last().typ == TokenType::Eof
            &&& tokens.last().lexeme.len() == 0
            &&& forall|i: int|
                0 <= i < tokens.len() - 1 ==> #[trigger] tokens[i].typ != TokenType::Eof
                    && tokens[i].lexeme.len() > 0
        },
    decreases src.len() - pos,
{
    let start = skip_white_space(src, pos);
    lemma_skip_white_space_bounds(src, pos);
    if start < src.len() {
        if let Ok((typ, end)) = lex_token(src, start) {
            lemma_lex_token_end(src, start);
            let at = line + newlines(src.subrange(pos, start));
            let l = token_line(src, start, end, typ, at);
            let tok = TokenModel { typ, line: l, lexeme: src.subrange(start, end) };
            lemma_eof_from(src, end, l);
            if let Ok(rest) = scan_from(src, end, l) {
                let tokens = seq![tok] + rest;
                assert(typ != TokenType::Eof);
                assert forall|i: int| 0 <= i < tokens.len() - 1 implies #[trigger] tokens[i].typ
                    != TokenType::Eof && tokens[i].lexeme.len() > 0 by {
                    if i > 0 {
                        assert(tokens[i] == rest[i - 1]);
                    }
                }
                assert(tokens.last() == rest.last());
            }
        }
    }
}

/// A successful scan ends with a single `Eof` token, whose lexeme is empty;
/// every other token has a lexeme of at least one character.
pub proof fn scan_ends_with_single_eof(src: Seq<char>)
    ensures
        scan_spec(src) matches Ok(tokens) ==> {
            &&& tokens.len() >= 1
            &&& tokens.last().typ == TokenType::Eof
            &&& tokens.last().lexeme.len() == 0
            &&& forall|i: int|
                0 <= i < tokens.len() - 1 ==> #[trigger] tokens[i].typ != TokenType::Eof
                    && tokens[i].lexeme.len() > 0
        },
{
    lemma_eof_from(src, 0, 1);
}

/// The token that `lex_token` makes at `start` has its keyword's kind exactly
/// when its lexeme is a reserved word.
proof fn lemma_token_keyword(src: Seq<char>, start: int)
    requires
        0 <= start < src.len(),
    ensures
        lex_token(src, start) matches Ok((typ, end)) ==> {
            &&& keyword_type(src.subrange(start, end)) matches Some(k) ==> typ == k
            &&& typ == TokenType::Identifier ==> keyword_type(src.subrange(start, end)) is None
        },
{
    lemma_lex_token_end(src, start);
    if let Ok((typ, end)) = lex_token(src, start) {
        let lexeme = src.subrange(start, end);
        let c = src[start];
        assert(lexeme[0] == c);
        if !starts_identifier(c) || is_ascii_digit(c) || single_char_type(c) is Some || c == '<'
            || c == '>' || c == '"' {
            assert(keyword_type(lexeme) is Some ==> c == 'i' || c == 'e' || c == 'f' || c == 'r'
                || c == 'l');
        }
    }
}

/// Reserved words are at least two characters long.
proof fn lemma_keyword_length(word: Seq<char>)
    ensures
        keyword_type(word) is Some ==> word.len() >= 2,
{
    assert(seq!['i', 'f'].len() == 2);
    assert(seq!['e', 'l', 's', 'e'].len() == 4);
    assert(seq!['f', 'n'].len() == 2);
    assert(seq!['r', 'e', 't', 'u', 'r', 'n'].len() == 6);
    assert(seq!['l', 'e', 't'].len() == 3);
}

/// Keywords, from `pos` on.
proof fn lemma_keywords_from(src: Seq<char>, pos: int, line: nat)
    requires
        0 <= pos <= src.len(),
    ensures
        scan_from(src, pos, line) matches Ok(tokens) ==> forall|i: int|
            0 <= i < tokens.len() ==> {
                &&& keyword_type(#[trigger] tokens[i].lexeme) matches Some(k) ==> tokens[i].typ == k
                &&& tokens[i].typ == TokenType::Identifier ==> keyword_type(tokens[i].lexeme) is None
            },
    decreases src.len() - pos,
{
    let start = skip_white_space(src, pos);
    lemma_skip_white_space_bounds(src, pos);
    if start < src.len() {
        if let Ok((typ, end)) = lex_token(src, start) {
            lemma_lex_token_end(src, start);
            lemma_token_keyword(src, start);
            let at = line + newlines(src.subrange(pos, start));
            let l = token_line(src, start, end, typ, at);
            let tok = TokenModel { typ, line: l, lexeme: src.subrange(start, end) };
            lemma_keywords_from(src, end, l);
            if let Ok(rest) = scan_from(src, end, l) {
                let tokens = seq![tok] + rest;
                assert forall|i: int| 0 <= i < tokens.len() implies {
                    &&& keyword_type(#[trigger] tokens[i].lexeme) matches Some(k) ==> tokens[i].typ == k
                    &&& tokens[i].typ == TokenType::Identifier ==> keyword_type(tokens[i].lexeme) is None
                } by {
                    if i > 0 {
                        assert(tokens[i] == rest[i - 1]);
                    }
                }
            }
        }
    } else {
        lemma_keyword_length(Seq::<char>::empty());
    }
}

/// A token whose lexeme is a reserved word has that word's kind, and no
/// `Identifier` token's lexeme is a reserved word.
pub proof fn scan_keywords_are_exact(src: Seq<char>)
    ensures
        scan_spec(src) matches Ok(tokens) ==> forall|i: int|
            0 <= i < tokens.len() ==> {
                &&& keyword_type(#[trigger] tokens[i].lexeme) matches Some(k) ==> tokens[i].typ == k
                &&& tokens[i].typ == TokenType::Identifier ==> keyword_type(tokens[i].lexeme) is None
            },
{
    lemma_keywords_from(src, 0, 1);
}

/// Lines, from `pos` on.
proof fn lemma_lines_from(src: Seq<char>, pos: int, line: nat)
    requires
        0 <= pos <= src.len(),
    ensures
        scan_from(src, pos, line) matches Ok(tokens) ==> {
            &&& forall|i: int| 0 <= i < tokens.len() ==> line <= #[trigger] tokens[i].line
            &&& forall|i: int, j: int|
                0 <= i <= j < tokens.len() ==> #[trigger] tokens[i].line <= #[trigger] tokens[j].line
        },
    decreases src.len() - pos,
{
    let start = skip_white_space(src, pos);
    lemma_skip_white_space_bounds(src, pos);
    if start < src.len() {
        if let Ok((typ, end)) = lex_token(src, start) {
            lemma_lex_token_end(src, start);
            let at = line + newlines(src.subrange(pos, start));
            let l = token_line(src, start, end, typ, at);
            let tok = TokenModel { typ, line: l, lexeme: src.subrange(start, end) };
            lemma_lines_from(src, end, l);
            if let Ok(rest) = scan_from(src, end, l) {
                let tokens = seq![tok] + rest;
                assert forall|i: int| 0 <= i < tokens.len() implies line <= #[trigger] tokens[i].line by {
                    if i > 0 {
                        assert(tokens[i] == rest[i - 1]);
                    }
                }
                assert forall|i: int, j: int|
                    0 <= i <= j < tokens.len() implies #[trigger] tokens[i].line
                    <= #[trigger] tokens[j].line by {
                    if j > 0 {
                        assert(tokens[j] == rest[j - 1]);
                    }
                    if i > 0 {
                        assert(tokens[i] == rest[i - 1]);
                    }
                }
            }
        }
    }
}

/// Line numbers start at 1 and never go down along the tokens of a scan.
pub proof fn scan_lines_never_decrease(src: Seq<char>)
    ensures
        scan_spec(src) matches Ok(tokens) ==> {
            &&& forall|i: int| 0 <= i < tokens.len() ==> 1 <= #[trigger] tokens[i].line
            &&& forall|i: int, j: int|
                0 <= i <= j < tokens.len() ==> #[trigger] tokens[i].line <= #[trigger] tokens[j].line
        },
{
    lemma_lines_from(src, 0, 1);
}

/// A character that can begin no token: not white space, and none of the
/// characters that begin punctuation, strings, numbers or words.
pub open spec fn begins_no_token(c: char) -> bool {
    &&& !is_white_space(c)
    &&& single_char_type(c) is None
    &&& c != '<' && c != '>' && c != '"'
    &&& !is_ascii_digit(c)
    &&& !starts_identifier(c)
}

/// What a failed scan from `pos` reports is in the source from `pos` on.
pub open spec fn error_is_explained(src: Seq<char>, pos: int, e: ScanError) -> bool {
    match e {
        ScanError::UnexpectedChar(c) => exists|k: int|
            pos <= k < src.len() && #[trigger] src[k] == c && begins_no_token(c),
        ScanError::UnterminatedString => exists|k: int| pos <= k < src.len() && #[trigger] src[k] == '"',
        ScanError::Io(_) => false,
    }
}

/// Errors, from `pos` on.
proof fn lemma_errors_from(src: Seq<char>, pos: int, line: nat)
    requires
        0 <= pos <= src.len(),
    ensures
        scan_from(src, pos, line) matches Err(e) ==> error_is_explained(src, pos, e),
    decreases src.len() - pos,
{
    let start = skip_white_space(src, pos);
    lemma_skip_white_space_bounds(src, pos);
    if start < src.len() {
        lemma_lex_token_end(src, start);
        match lex_token(src, start) {
            Ok((typ, end)) => {
                let at = line + newlines(src.subrange(pos, start));
                let l = token_line(src, start, end, typ, at);
                lemma_errors_from(src, end, l);
                if let Err(e) = scan_from(src, end, l) {
                    match e {
                        ScanError::UnexpectedChar(c) => {
                            let k = choose|k: int| end <= k < src.len() && #[trigger] src[k] == c
                                && begins_no_token(c);
                            assert(pos <= k);
                        },
                        ScanError::UnterminatedString => {
                            let k = choose|k: int| end <= k < src.len() && #[trigger] src[k] == '"';
                            assert(pos <= k);
                        },
                        ScanError::Io(_) => {},
                    }
                }
            },
            Err(e) => {
                assert(src[start] == src[start]);
            },
        }
    }
}

/// A scan fails only for a reason that stands in the source: an unexpected
/// character is one of the source's characters and can begin no token; an
/// unterminated string needs a quote in the source. The scanner never reports
/// an input error.
pub proof fn scan_errors_are_explained(src: Seq<char>)
    ensures
        scan_spec(src) matches Err(e) ==> error_is_explained(src, 0, e),
{
    lemma_errors_from(src, 0, 1);
}

/// Where each token of the scan from `pos` begins: the position of its
/// lexeme's first character, and for `Eof` the end of the source.
pub open spec fn token_starts(src: Seq<char>, pos: int) -> Seq<int>
    decreases src.len() - pos,
{
    let start = skip_white_space(src, pos);
    if start >= src.len() {
        seq![start]
    } else {
        match lex_token(src, start) {
            Err(_) => Seq::empty(),
            Ok((_, end)) => {
                proof {
                    lemma_skip_white_space_bounds(src, pos);
                    lemma_lex_token_end(src, start);
                }
                seq![start] + token_starts(src, end)
            },
        }
    }
}

/// Every character from `a` up to `b` is white space.
pub open spec fn white_space_between(src: Seq<char>, a: int, b: int) -> bool {
    forall|k: int| a <= k < b ==> is_white_space(#[trigger] src[k])
}

/// The position after the lexeme of token `i`, which begins at `starts[i]`.
pub open spec fn lexeme_end(starts: Seq<int>, tokens: Seq<TokenModel>, i: int) -> int {
    starts[i] + tokens[i].lexeme.len()
}

/// The lexemes of `tokens`, beginning at `starts`, are the source from `pos`
/// on, in order and without overlap, with only white space between them and
/// before the first; the last (`Eof`'s) begins at the source's end.
pub open spec fn tokens_tile_source(
    src: Seq<char>,
    pos: int,
    tokens: Seq<TokenModel>,
    starts: Seq<int>,
) -> bool {
    &&& starts.len() == tokens.len()
    &&& starts.len() >= 1
    &&& white_space_between(src, pos, starts[0])
    &&& starts.last() == src.len()
    &&& forall|i: int|
        0 <= i < tokens.len() ==> pos <= #[trigger] starts[i] && lexeme_end(starts, tokens, i)
            <= src.len() && src.subrange(starts[i], lexeme_end(starts, tokens, i))
            == tokens[i].lexeme
    &&& forall|i: int|
        0 <= i < tokens.len() - 1 ==> #[trigger] lexeme_end(starts, tokens, i) <= starts[i + 1]
            && white_space_between(src, lexeme_end(starts, tokens, i), starts[i + 1])
}

/// The tiling, from `pos` on.
pub proof fn lemma_tiling_from(src: Seq<char>, pos: int, line: nat)
    requires
        0 <= pos <= src.len(),
    ensures
        scan_from(src, pos, line) matches Ok(tokens) ==> tokens_tile_source(
            src,
            pos,
            tokens,
            token_starts(src, pos),
        ),
    decreases src.len() - pos,
{
    let start = skip_white_space(src, pos);
    lemma_skip_white_space_bounds(src, pos);
    if start < src.len() {
        if let Ok((typ, end)) = lex_token(src, start) {
            lemma_lex_token_end(src, start);
            let at = line + newlines(src.subrange(pos, start));
            let l = token_line(src, start, end, typ, at);
            let tok = TokenModel { typ, line: l, lexeme: src.subrange(start, end) };
            lemma_tiling_from(src, end, l);
            if let Ok(rest) = scan_from(src, end, l) {
                let tokens = seq![tok] + rest;
                let later = token_starts(src, end);
                let starts = seq![start] + later;
                assert(token_starts(src, pos) == starts);
                assert(starts.last() == later.last());
                assert forall|i: int| 0 <= i < tokens.len() implies pos <= #[trigger] starts[i]
                    && lexeme_end(starts, tokens, i) <= src.len() && src.subrange(
                    starts[i],
                    lexeme_end(starts, tokens, i),
                ) == tokens[i].lexeme by {
                    if i > 0 {
                        assert(tokens[i] == rest[i - 1]);
                        assert(starts[i] == later[i - 1]);
                        assert(lexeme_end(starts, tokens, i) == lexeme_end(later, rest, i - 1));
                    }
                }
                assert forall|i: int| 0 <= i < tokens.len() - 1 implies #[trigger] lexeme_end(
                    starts,
                    tokens,
                    i,
                ) <= starts[i + 1] && white_space_between(
                    src,
                    lexeme_end(starts, tokens, i),
                    starts[i + 1],
                ) by {
                    if i > 0 {
                        assert(tokens[i] == rest[i - 1]);
                        assert(starts[i] == later[i - 1]);
                        assert(starts[i + 1] == later[i]);
                        assert(lexeme_end(starts, tokens, i) == lexeme_end(later, rest, i - 1));
                    } else {
                        assert(lexeme_end(starts, tokens, 0) == end);
                        assert(starts[1] == later[0]);
                    }
                }
            }
        }
    } else {
        assert(src.subrange(start, start) =~= Seq::<char>::empty());
    }
}

/// The lexemes of a successful scan are the source's own text: each is the
/// source's characters from where the token begins, in order and without
/// overlap, with only white space between them and before the first, and
/// `Eof` begins at the source's end.
pub proof fn scan_lexemes_tile_source(src: Seq<char>)
    ensures
        scan_spec(src) matches Ok(tokens) ==> tokens_tile_source(
            src,
            0,
            tokens,
            token_starts(src, 0),
        ),
{
    lemma_tiling_from(src, 0, 1);
}

/// Line feeds add up over adjacent stretches of the source.
proof fn lemma_newlines_split(src: Seq<char>, a: int, b: int, c: int)
    requires
        0 <= a <= b <= c <= src.len(),
    ensures
        newlines(src.subrange(a, c)) == newlines(src.subrange(a, b)) + newlines(
            src.subrange(b, c),
        ),
    decreases c - b,
{
    if c == b {
        assert(src.subrange(b, b) =~= Seq::<char>::empty());
    } else {
        lemma_newlines_split(src, a, b, c - 1);
        lemma_newlines_extend(src, a, c - 1);
        lemma_newlines_extend(src, b, c - 1);
    }
}

/// A stretch without line feeds counts none.
proof fn lemma_no_newlines(src: Seq<char>, a: int, b: int)
    requires
        0 <= a <= b <= src.len(),
        forall|k: int| a <= k < b ==> #[trigger] src[k] != '\n',
    ensures
        newlines(src.subrange(a, b)) == 0,
    decreases b - a,
{
    if b > a {
        lemma_no_newlines(src, a, b - 1);
        lemma_newlines_extend(src, a, b - 1);
    } else {
        assert(src.subrange(a, a) =~= Seq::<char>::empty());
    }
}

/// Only a string literal can hold a line feed, when a line feed cannot
/// continue an identifier.
proof fn lemma_token_without_line_feed(src: Seq<char>, start: int)
    requires
        0 <= start < src.len(),
    ensures
        lex_token(src, start) matches Ok((typ, end)) ==> typ != TokenType::String ==> forall|k: int|
            start <= k < end ==> #[trigger] src[k] != '\n',
{
    let c = src[start];
    let p = start + 1;
    lemma_identifier_end_bounds(src, p);
    lemma_digits_end_bounds(src, p);
    if p < src.len() {
        lemma_digits_end_bounds(src, digits_end(src, p) + 1);
    }
    if let Ok((typ, end)) = lex_token(src, start) {
        if typ != TokenType::String {
            assert forall|k: int| start <= k < end implies #[trigger] src[k] != '\n' by {
                if k > start && is_ascii_digit(c) && single_char_type(c) is None {
                    let q = digits_end(src, p);
                    if k < q {
                        assert(is_ascii_digit(src[k]));
                    } else if k > q {
                        assert(is_ascii_digit(src[k]));
                    }
                }
                if k > start && starts_identifier(c) && !is_ascii_digit(c) && single_char_type(
                    c,
                ) is None && c != '<' && c != '>' && c != '"' {
                    assert(continues_identifier(src[k]));
                }
            }
        }
    }
}

/// Exact lines, from `pos` on.
proof fn lemma_lines_exact_from(src: Seq<char>, pos: int, line: nat)
    requires
        0 <= pos <= src.len(),
    ensures
        scan_from(src, pos, line) matches Ok(tokens) ==> forall|i: int|
            0 <= i < tokens.len() ==> {
                &&& #[trigger] tokens[i].line == line + newlines(
                    src.subrange(pos, lexeme_end(token_starts(src, pos), tokens, i)),
                )
                &&& tokens[i].typ != TokenType::String ==> tokens[i].line == line + newlines(
                    src.subrange(pos, token_starts(src, pos)[i]),
                )
            },
    decreases src.len() - pos,
{
    let start = skip_white_space(src, pos);
    lemma_skip_white_space_bounds(src, pos);
    if start < src.len() {
        if let Ok((typ, end)) = lex_token(src, start) {
            lemma_lex_token_end(src, start);
            lemma_token_without_line_feed(src, start);
            let at = line + newlines(src.subrange(pos, start));
            let l = token_line(src, start, end, typ, at);
            let tok = TokenModel { typ, line: l, lexeme: src.subrange(start, end) };
            lemma_lines_exact_from(src, end, l);
            lemma_tiling_from(src, end, l);
            lemma_newlines_split(src, pos, start, end);
            if typ != TokenType::String {
                lemma_no_newlines(src, start, end);
            }
            assert(l == line + newlines(src.subrange(pos, end)));
            if let Ok(rest) = scan_from(src, end, l) {
                let tokens = seq![tok] + rest;
                let later = token_starts(src, end);
                let starts = seq![start] + later;
                assert(token_starts(src, pos) == starts);
                assert forall|i: int| 0 <= i < tokens.len() implies {
                    &&& #[trigger] tokens[i].line == line + newlines(
                        src.subrange(pos, lexeme_end(starts, tokens, i)),
                    )
                    &&& tokens[i].typ != TokenType::String ==> tokens[i].line == line + newlines(
                        src.subrange(pos, starts[i]),
                    )
                } by {
                    if i > 0 {
                        assert(tokens[i] == rest[i - 1]);
                        assert(starts[i] == later[i - 1]);
                        let e = lexeme_end(later, rest, i - 1);
                        assert(lexeme_end(starts, tokens, i) == e);
                        assert(end <= later[i - 1] <= e <= src.len());
                        lemma_newlines_split(src, pos, end, e);
                        lemma_newlines_split(src, pos, end, later[i - 1]);
                    } else {
                        assert(lexeme_end(starts, tokens, 0) == end);
                    }
                }
            }
        }
    }
}

/// A token's line is 1 plus the line feeds in the source before it: before
/// its lexeme for every token but a string, and up to the end of a string's
/// lexeme (its closing quote) for a string. So `Eof`'s line is 1 plus all the
/// source's line feeds.
pub proof fn scan_lines_count_line_feeds(src: Seq<char>)
    ensures
        scan_spec(src) matches Ok(tokens) ==> {
            &&& forall|i: int|
                0 <= i < tokens.len() && #[trigger] tokens[i].typ != TokenType::String
                    ==> tokens[i].line == 1 + newlines(src.subrange(0, token_starts(src, 0)[i]))
            &&& forall|i: int|
                0 <= i < tokens.len() && #[trigger] tokens[i].typ == TokenType::String
                    ==> tokens[i].line == 1 + newlines(
                    src.subrange(0, lexeme_end(token_starts(src, 0), tokens, i)),
                )
            &&& tokens.last().line == 1 + newlines(src)
        },
{
    lemma_lines_exact_from(src, 0, 1);
    lemma_tiling_from(src, 0, 1);
    lemma_eof_from(src, 0, 1);
    if let Ok(tokens) = scan_spec(src) {
        let last = tokens.len() - 1;
        assert(tokens[last].line == 1 + newlines(
            src.subrange(0, lexeme_end(token_starts(src, 0), tokens, last)),
        ));
        assert(src.subrange(0, src.len() as int) =~= src);
    }
}

/// A run of digits in a stretch of the source ends where the run in the
/// whole source ends, or where the stretch does.
proof fn lemma_digits_end_subrange(src: Seq<char>, start: int, end: int, k: int)
    requires
        0 <= start <= start + k <= end <= src.len(),
    ensures
        digits_end(src.subrange(start, end), k) + start == if digits_end(src, start + k) < end {
            digits_end(src, start + k)
        } else {
            end
        },
    decreases end - start - k,
{
    lemma_digits_end_bounds(src, start + k);
    if start + k < end && is_ascii_digit(src[start + k]) {
        lemma_digits_end_subrange(src, start, end, k + 1);
    }
}

/// A number's lexeme is a floating-point literal: digits, then perhaps a dot
/// and more digits.
proof fn lemma_number_is_float_literal(src: Seq<char>, start: int)
    requires
        0 <= start < src.len(),
        is_ascii_digit(src[start]),
    ensures
        is_float_literal(src.subrange(start, number_end(src, start))),
{
    let p = start + 1;
    let e = number_end(src, start);
    lemma_digits_end_bounds(src, p);
    let q = digits_end(src, p);
    if p < src.len() {
        lemma_digits_end_bounds(src, q + 1);
    }
    let lexeme = src.subrange(start, e);
    assert(start < e <= src.len());
    assert(lexeme[0] == src[start]);
    assert(!is_sign(lexeme[0]));
    lemma_digits_end_subrange(src, start, e, 0);
    if p < src.len() && is_ascii_digit(src[p]) && q < src.len() && src[q] == '.' {
        assert(digits_end(src, start) == q);
        assert(lexeme[q - start] == '.');
        lemma_digits_end_subrange(src, start, e, q - start + 1);
        assert(mantissa_end(lexeme) == lexeme.len());
    } else if p < src.len() && is_ascii_digit(src[p]) {
        assert(digits_end(src, start) == q);
        assert(mantissa_end(lexeme) == lexeme.len());
    } else {
        assert(digits_end(src, start) == p);
        assert(mantissa_end(lexeme) == lexeme.len());
    }
    assert(is_unsigned_decimal(lexeme));
}

/// Numbers, from `pos` on.
proof fn lemma_numbers_from(src: Seq<char>, pos: int, line: nat)
    requires
        0 <= pos <= src.len(),
    ensures
        scan_from(src, pos, line) matches Ok(tokens) ==> forall|i: int|
            0 <= i < tokens.len() && #[trigger] tokens[i].typ == TokenType::Number
                ==> is_float_literal(tokens[i].lexeme),
    decreases src.len() - pos,
{
    let start = skip_white_space(src, pos);
    lemma_skip_white_space_bounds(src, pos);
    if start < src.len() {
        if let Ok((typ, end)) = lex_token(src, start) {
            lemma_lex_token_end(src, start);
            let at = line + newlines(src.subrange(pos, start));
            let l = token_line(src, start, end, typ, at);
            let tok = TokenModel { typ, line: l, lexeme: src.subrange(start, end) };
            lemma_numbers_from(src, end, l);
            if typ == TokenType::Number {
                lemma_number_is_float_literal(src, start);
            }
            if let Ok(rest) = scan_from(src, end, l) {
                let tokens = seq![tok] + rest;
                assert forall|i: int|
                    0 <= i < tokens.len() && #[trigger] tokens[i].typ == TokenType::Number implies is_float_literal(
                    tokens[i].lexeme,
                ) by {
                    if i > 0 {
                        assert(tokens[i] == rest[i - 1]);
                    }
                }
            }
        }
    }
}

/// Every number that the scanner makes is a floating-point literal that
/// `str::parse::<f64>` accepts.
pub proof fn scan_numbers_are_float_literals(src: Seq<char>)
    ensures
        scan_spec(src) matches Ok(tokens) ==> forall|i: int|
            0 <= i < tokens.len() && #[trigger] tokens[i].typ == TokenType::Number
                ==> is_float_literal(tokens[i].lexeme),
{
    lemma_numbers_from(src, 0, 1);
}

/// Compiling the tokens of a source that begins with a number gives one
/// constant: that number's text, on its line.
pub proof fn compile_of_scanned_number(src: Seq<char>)
    requires
        scan_spec(src) matches Ok(tokens) && tokens[0].typ == TokenType::Number,
    ensures
        scan_spec(src) matches Ok(tokens) && compile_spec(tokens) == Ok::<
            Seq<InstructionModel>,
            crate::compilation::ParseError,
        >(seq![InstructionModel { constant: tokens[0].lexeme, line: tokens[0].line }]),
{
    scan_numbers_are_float_literals(src);
    scan_ends_with_single_eof(src);
}

/// The first position at or after `pos` whose character can begin no token.
pub open spec fn first_unexpected(src: Seq<char>, pos: int) -> Option<int>
    decreases src.len() - pos,
{
    if 0 <= pos < src.len() {
        if begins_no_token(src[pos]) {
            Some(pos)
        } else {
            first_unexpected(src, pos + 1)
        }
    } else {
        None
    }
}

/// `first_unexpected` finds the first such position, or there is none.
proof fn lemma_first_unexpected(src: Seq<char>, pos: int)
    requires
        0 <= pos <= src.len(),
    ensures
        first_unexpected(src, pos) matches Some(k) ==> pos <= k < src.len() && begins_no_token(
            src[k],
        ) && forall|j: int| pos <= j < k ==> !begins_no_token(#[trigger] src[j]),
        first_unexpected(src, pos) is None ==> forall|j: int|
            pos <= j < src.len() ==> !begins_no_token(#[trigger] src[j]),
    decreases src.len() - pos,
{
    if pos < src.len() && !begins_no_token(src[pos]) {
        lemma_first_unexpected(src, pos + 1);
    }
}

/// Skipping characters that can begin tokens does not change the first one
/// that cannot.
proof fn lemma_first_unexpected_skip(src: Seq<char>, a: int, b: int)
    requires
        0 <= a <= b <= src.len(),
        forall|k: int| a <= k < b ==> !begins_no_token(#[trigger] src[k]),
    ensures
        first_unexpected(src, a) == first_unexpected(src, b),
    decreases b - a,
{
    if a < b {
        lemma_first_unexpected_skip(src, a + 1, b);
    }
}

/// Every character of a token other than a string can begin a token.
proof fn lemma_token_chars_begin_tokens(src: Seq<char>, start: int)
    requires
        0 <= start < src.len(),
    ensures
        lex_token(src, start) matches Ok((typ, end)) ==> typ != TokenType::String ==> forall|k: int|
            start <= k < end ==> !begins_no_token(#[trigger] src[k]),
{
    let c = src[start];
    let p = start + 1;
    lemma_identifier_end_bounds(src, p);
    lemma_digits_end_bounds(src, p);
    if p < src.len() {
        lemma_digits_end_bounds(src, digits_end(src, p) + 1);
    }
    if let Ok((typ, end)) = lex_token(src, start) {
        if typ != TokenType::String {
            assert forall|k: int| start <= k < end implies !begins_no_token(#[trigger] src[k]) by {
                if k > start && is_ascii_digit(c) && single_char_type(c) is None {
                    let q = digits_end(src, p);
                    if k < q {
                        assert(is_ascii_digit(src[k]));
                    } else if k > q {
                        assert(is_ascii_digit(src[k]));
                    } else {
                        assert(src[k] == '.');
                    }
                }
                if k > start && starts_identifier(c) && !is_ascii_digit(c) && single_char_type(
                    c,
                ) is None && c != '<' && c != '>' && c != '"' {
                    assert(continues_identifier(src[k]));
                }
                if k > start && (c == '<' || c == '>') {
                    assert(src[k] == '=');
                }
            }
        }
    }
}

/// The first unexpected character, from `pos` on.
proof fn lemma_first_unexpected_from(src: Seq<char>, pos: int, line: nat)
    requires
        0 <= pos <= src.len(),
        forall|k: int| pos <= k < src.len() ==> #[trigger] src[k] != '"',
    ensures
        match first_unexpected(src, pos) {
            Some(k) => scan_from(src, pos, line) == Err::<Seq<TokenModel>, ScanError>(
                ScanError::UnexpectedChar(src[k]),
            ),
            None => scan_from(src, pos, line) is Ok,
        },
    decreases src.len() - pos,
{
    let start = skip_white_space(src, pos);
    lemma_skip_white_space_bounds(src, pos);
    lemma_first_unexpected_skip(src, pos, start);
    if start < src.len() {
        let c = src[start];
        assert(c != '"');
        if !begins_no_token(c) {
            lemma_lex_token_end(src, start);
            lemma_token_chars_begin_tokens(src, start);
            if let Ok((typ, end)) = lex_token(src, start) {
                assert(typ != TokenType::String);
                lemma_first_unexpected_skip(src, start, end);
                let at = line + newlines(src.subrange(pos, start));
                let l = token_line(src, start, end, typ, at);
                lemma_first_unexpected_from(src, end, l);
            }
        }
    }
}

/// In a source without quotes, the scan fails exactly when some character can
/// begin no token, and then it reports the first such character; otherwise
/// the scan succeeds.
pub proof fn scan_reports_first_unexpected_char(src: Seq<char>)
    requires
        forall|k: int| 0 <= k < src.len() ==> #[trigger] src[k] != '"',
    ensures
        match first_unexpected(src, 0) {
            Some(k) => {
                &&& 0 <= k < src.len()
                &&& begins_no_token(src[k])
                &&& forall|j: int| 0 <= j < k ==> !begins_no_token(#[trigger] src[j])
                &&& scan_spec(src) == Err::<Seq<TokenModel>, ScanError>(
                    ScanError::UnexpectedChar(src[k]),
                )
            },
            None => {
                &&& forall|j: int| 0 <= j < src.len() ==> !begins_no_token(#[trigger] src[j])
                &&& scan_spec(src) is Ok
            },
        },
{
    lemma_first_unexpected(src, 0);
    lemma_first_unexpected_from(src, 0, 1);
}

/// Skipping white space from `pos` stops at the first position that holds no
/// white space, or at the end: every character skipped is white space.
pub proof fn white_space_skip_stops_at_first_other(src: Seq<char>, pos: int)
    requires
        0 <= pos <= src.len(),
    ensures
        pos <= skip_white_space(src, pos) <= src.len(),
        forall|k: int| pos <= k < skip_white_space(src, pos) ==> is_white_space(#[trigger] src[k]),
        skip_white_space(src, pos) < src.len() ==> !is_white_space(
            src[skip_white_space(src, pos)],
        ),
{
    lemma_skip_white_space_bounds(src, pos);
}

/// A one-character punctuation mark is a token of its kind by itself (so
/// `==` is two `Equal` tokens), on the line where it stands.
pub proof fn token_punctuation(src: Seq<char>, start: int, line: nat)
    requires
        0 <= start < src.len(),
        single_char_type(src[start]) is Some,
    ensures
        lex_token(src, start) == Ok::<(TokenType, int), ScanError>(
            (single_char_type(src[start])->0, start + 1),
        ),
        token_line(src, start, start + 1, single_char_type(src[start])->0, line) == line,
{
}

/// At a position that holds no white space, the token there fails exactly
/// when its first character can begin no token, and then the error names that
/// character; an unterminated string needs a quote there; there is never an
/// input error.
pub proof fn token_errors(src: Seq<char>, start: int)
    requires
        0 <= start < src.len(),
        !is_white_space(src[start]),
    ensures
        (lex_token(src, start) matches Err(ScanError::UnexpectedChar(_))) <==> begins_no_token(
            src[start],
        ),
        lex_token(src, start) matches Err(ScanError::UnexpectedChar(c)) ==> c == src[start],
        lex_token(src, start) matches Err(ScanError::UnterminatedString) ==> src[start] == '"',
        !(lex_token(src, start) matches Err(ScanError::Io(_))),
{
}

/// A token is at least one character long and stays in the source; its line
/// is the line where it starts plus the line feeds in its lexeme, which only
/// a string can hold.
pub proof fn token_span_and_line(src: Seq<char>, start: int, line: nat)
    requires
        0 <= start < src.len(),
    ensures
        lex_token(src, start) matches Ok((typ, end)) ==> {
            &&& start < end <= src.len()
            &&& token_line(src, start, end, typ, line) == line + newlines(
                src.subrange(start, end),
            )
            &&& typ != TokenType::String ==> forall|k: int|
                start <= k < end ==> #[trigger] src[k] != '\n'
        },
{
    lemma_lex_token_end(src, start);
    lemma_token_without_line_feed(src, start);
    if let Ok((typ, end)) = lex_token(src, start) {
        if typ != TokenType::String {
            lemma_no_newlines(src, start, end);
        }
    }
}

/// A token is the longest match: `<` and `>` are not followed by `=`, a word
/// not by a character that could continue it, and a number not by a digit.
pub proof fn token_longest_match(src: Seq<char>, start: int)
    requires
        0 <= start < src.len(),
    ensures
        lex_token(src, start) matches Ok((typ, end)) ==> {
            &&& (typ == TokenType::Less || typ == TokenType::Greater) ==> char_at(src, end) != '='
            &&& (typ == TokenType::Identifier || typ == TokenType::If || typ == TokenType::Else
                || typ == TokenType::Fn || typ == TokenType::Return || typ == TokenType::Let)
                ==> !continues_identifier(char_at(src, end))
            &&& typ == TokenType::Number ==> !is_ascii_digit(char_at(src, end))
        },
{
    let c = src[start];
    let p = start + 1;
    lemma_identifier_end_bounds(src, p);
    lemma_digits_end_bounds(src, p);
    lemma_lex_token_end(src, start);
    if p < src.len() {
        lemma_digits_end_bounds(src, digits_end(src, p) + 1);
        lemma_identifier_end_bounds(src, identifier_end(src, p));
        lemma_digits_end_bounds(src, digits_end(src, digits_end(src, p) + 1));
    }
    if let Ok((typ, end)) = lex_token(src, start) {
        if end < src.len() && is_ascii_digit(c) {
            let q = digits_end(src, p);
            if p < src.len() && is_ascii_digit(src[p]) && q < src.len() && src[q] == '.' {
                lemma_digits_end_bounds(src, q + 1);
            }
        }
    }
}

/// A number is its first digit, the digits after it, and, when at least two
/// digits lead, a dot and the digits after the dot.
pub proof fn token_number(src: Seq<char>, start: int)
    requires
        0 <= start < src.len(),
        is_ascii_digit(src[start]),
    ensures
        lex_token(src, start) == Ok::<(TokenType, int), ScanError>(
            (TokenType::Number, number_end(src, start)),
        ),
        start < digits_end(src, start),
        forall|k: int| start <= k < digits_end(src, start) ==> is_ascii_digit(#[trigger] src[k]),
        number_end(src, start) == digits_end(src, start) || (digits_end(src, start) >= start + 2
            && src[digits_end(src, start)] == '.' && number_end(src, start) == digits_end(
            src,
            digits_end(src, start) + 1,
        )),
        forall|k: int|
            digits_end(src, start) < k < number_end(src, start) ==> is_ascii_digit(#[trigger] src[k]),
{
    lemma_digits_end_bounds(src, start);
    let p = start + 1;
    lemma_digits_end_bounds(src, p);
    assert(digits_end(src, start) == digits_end(src, p));
    if p < src.len() {
        lemma_digits_end_bounds(src, digits_end(src, p) + 1);
    }
}

/// A word is its first character and every character after it that can
/// continue an identifier; its kind is its keyword's, or `Identifier`.
pub proof fn token_word(src: Seq<char>, start: int)
    requires
        0 <= start < src.len(),
        starts_identifier(src[start]),
    ensures
        lex_token(src, start) == Ok::<(TokenType, int), ScanError>(
            (
                word_type(src.subrange(start, identifier_end(src, start + 1))),
                identifier_end(src, start + 1),
            ),
        ),
        forall|k: int|
            start < k < identifier_end(src, start + 1) ==> continues_identifier(#[trigger] src[k]),
        !continues_identifier(char_at(src, identifier_end(src, start + 1))),
{
    lemma_identifier_end_bounds(src, start + 1);
    lemma_identifier_end_bounds(src, identifier_end(src, start + 1));
}

/// Where a string literal whose body starts at `pos` ends: after the first
/// quote, when no NUL character comes before it.
proof fn lemma_string_end_first_quote(src: Seq<char>, pos: int)
    requires
        0 <= pos <= src.len(),
    ensures
        string_end(src, pos) matches Some(end) ==> pos < end <= src.len() && src[end - 1] == '"'
            && forall|k: int| pos <= k < end - 1 ==> #[trigger] src[k] != '"' && src[k] != '\0',
        (forall|k: int| pos <= k < src.len() ==> #[trigger] src[k] != '\0') ==> (string_end(
            src,
            pos,
        ) is None <==> forall|k: int| pos <= k < src.len() ==> #[trigger] src[k] != '"'),
    decreases src.len() - pos,
{
    lemma_string_end_bounds(src, pos);
    if pos < src.len() && src[pos] != '\0' && src[pos] != '"' {
        lemma_string_end_first_quote(src, pos + 1);
    }
}

/// A string literal ends just after the first quote that follows its
/// opening quote, and no NUL character stands between them; its line adds
/// the line feeds in it. With no NUL after the opening quote, it is
/// unterminated exactly when no quote follows.
pub proof fn token_string(src: Seq<char>, start: int, line: nat)
    requires
        0 <= start < src.len(),
        src[start] == '"',
    ensures
        match string_end(src, start + 1) {
            Some(end) => {
                &&& lex_token(src, start) == Ok::<(TokenType, int), ScanError>(
                    (TokenType::String, end),
                )
                &&& src[end - 1] == '"'
                &&& start + 1 < end
                &&& forall|k: int|
                    start < k < end - 1 ==> #[trigger] src[k] != '"' && src[k] != '\0'
                &&& token_line(src, start, end, TokenType::String, line) == line + newlines(
                    src.subrange(start, end),
                )
            },
            None => lex_token(src, start) == Err::<(TokenType, int), ScanError>(
                ScanError::UnterminatedString,
            ),
        },
        (forall|k: int| start < k < src.len() ==> #[trigger] src[k] != '\0') ==> (lex_token(
            src,
            start,
        ) is Err <==> forall|k: int| start < k < src.len() ==> #[trigger] src[k] != '"'),
{
    lemma_string_end_first_quote(src, start + 1);
    if forall|k: int| start < k < src.len() ==> #[trigger] src[k] != '\0' {
        assert forall|k: int| start + 1 <= k < src.len() implies #[trigger] src[k] != '\0' by {}
        assert((forall|k: int| start + 1 <= k < src.len() ==> #[trigger] src[k] != '"') <==> (forall|k: int|
            start < k < src.len() ==> #[trigger] src[k] != '"'));
    }
}

} // verus!
