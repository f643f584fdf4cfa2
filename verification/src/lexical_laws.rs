//! Laws on the shape of every token, stated with character classes written
//! out here rather than through the grammar's own helper functions.

use vstd::prelude::*;

use crate::chars::{is_alphabetic, is_white_space};
use crate::compilation::is_float_literal;
use crate::grammar::{
    digits_end, lemma_digits_end_bounds, lemma_identifier_end_bounds, lemma_lex_token_end, lemma_skip_white_space_bounds, lex_token, newlines, scan_from,
    scan_spec, skip_white_space, token_line,
};
use crate::laws::{
    begins_no_token, first_unexpected, lemma_tiling_from, lexeme_end,
    scan_ends_with_single_eof, scan_errors_are_explained, scan_lexemes_tile_source,
    scan_reports_first_unexpected_char, token_errors, token_starts,
};
use crate::scan::{ScanError, TokenModel, TokenType};

verus! {

/// An ASCII decimal digit.
pub open spec fn is_decimal_digit(c: char) -> bool {
    '0' <= c && c <= '9'
}

/// A character that may stand in a word: a letter (in Unicode's sense), an
/// ASCII digit or an underscore.
pub open spec fn is_word_char(c: char) -> bool {
    is_alphabetic(c) || is_decimal_digit(c) || c == '_'
}

/// A kind of token that a word scans to: an identifier or a keyword.
pub open spec fn is_word_kind(t: TokenType) -> bool {
    t == TokenType::Identifier || t == TokenType::If || t == TokenType::Else || t == TokenType::Fn
        || t == TokenType::Return || t == TokenType::Let
}

/// The characters that `char::is_whitespace` reports: the Unicode
/// `White_Space` set.
pub open spec fn is_unicode_white_space(c: char) -> bool {
    ||| c == '\u{9}' || c == '\u{a}' || c == '\u{b}' || c == '\u{c}' || c == '\u{d}'
    ||| c == ' ' || c == '\u{85}' || c == '\u{a0}' || c == '\u{1680}'
    ||| '\u{2000}' <= c <= '\u{200a}'
    ||| c == '\u{2028}' || c == '\u{2029}' || c == '\u{202f}' || c == '\u{205f}' || c == '\u{3000}'
}

/// The characters that begin punctuation tokens.
pub open spec fn is_punctuation(c: char) -> bool {
    c == '+' || c == '-' || c == '*' || c == '/' || c == '=' || c == '<' || c == '>' || c == '('
        || c == ')' || c == '{' || c == '}' || c == ';' || c == ',' || c == '.'
}

/// Every token but `Eof` of the scan from `pos` satisfies `p`, given the
/// position where it starts, its kind and the position after it, when every
/// token that could be scanned anywhere in the source does.
proof fn lemma_every_token(
    src: Seq<char>,
    pos: int,
    line: nat,
    p: spec_fn(int, TokenType, int) -> bool,
)
    requires
        0 <= pos <= src.len(),
        forall|s: int|
            0 <= s < src.len() ==> (#[trigger] lex_token(src, s) matches Ok((t, e)) ==> p(s, t, e)),
    ensures
        scan_from(src, pos, line) matches Ok(tokens) ==> forall|i: int|
            0 <= i < tokens.len() - 1 ==> p(
                #[trigger] token_starts(src, pos)[i],
                tokens[i].typ,
                lexeme_end(token_starts(src, pos), tokens, i),
            ),
    decreases src.len() - pos,
{
    let start = skip_white_space(src, pos);
    lemma_skip_white_space_bounds(src, pos);
    if start < src.len() {
        if let Ok((typ, end)) = lex_token(src, start) {
            lemma_lex_token_end(src, start);
            let at = line + newlines(src.subrange(pos, start));
            let l = token_line(src, start, end, typ, at);
            let tok = TokenModel { typ, line: l, lexeme: src.subrange(start, end) };
            lemma_every_token(src, end, l, p);
            lemma_tiling_from(src, end, l);
            if let Ok(rest) = scan_from(src, end, l) {
                let tokens = seq![tok] + rest;
                let later = token_starts(src, end);
                let starts = seq![start] + later;
                assert(token_starts(src, pos) == starts);
                assert forall|i: int| 0 <= i < tokens.len() - 1 implies p(
                    #[trigger] starts[i],
                    tokens[i].typ,
                    lexeme_end(starts, tokens, i),
                ) by {
                    if i > 0 {
                        assert(tokens[i] == rest[i - 1]);
                        assert(starts[i] == later[i - 1]);
                        assert(lexeme_end(starts, tokens, i) == lexeme_end(later, rest, i - 1));
                    } else {
                        assert(lexeme_end(starts, tokens, 0) == end);
                    }
                }
            }
        }
    }
}

/// A word token spanning `s..e`: it begins with a letter or `_`, holds only
/// word characters, and the character after it (if any) is no word character.
pub open spec fn word_shape(src: Seq<char>, s: int, e: int) -> bool {
    &&& is_alphabetic(src[s]) || src[s] == '_'
    &&& forall|k: int| s <= k < e ==> is_word_char(#[trigger] src[k])
    &&& e < src.len() ==> !is_word_char(src[e])
}

/// A number token spanning `s..e`: it begins with a digit and holds only
/// digits and at most one dot, which comes after two or more digits and has
/// only digits after it; no digit follows it, and a dot follows it only when
/// it is a single digit or already holds a dot.
pub open spec fn number_shape(src: Seq<char>, s: int, e: int) -> bool {
    &&& is_decimal_digit(src[s])
    &&& forall|k: int| s <= k < e ==> is_decimal_digit(#[trigger] src[k]) || src[k] == '.'
    &&& forall|k: int|
        s <= k < e && #[trigger] src[k] == '.' ==> s + 2 <= k && (forall|j: int|
            s <= j < e && j != k ==> is_decimal_digit(#[trigger] src[j]))
    &&& e < src.len() ==> !is_decimal_digit(src[e])
    &&& e < src.len() && src[e] == '.' && (forall|k: int| s <= k < e ==> #[trigger] src[k] != '.')
        ==> e == s + 1
}

/// A token of the grammar: words have the word shape and numbers the number
/// shape; a token is a word exactly when it begins with a letter or `_`, and
/// a number exactly when it begins with a digit.
proof fn lemma_token_shapes(src: Seq<char>, s: int)
    requires
        0 <= s < src.len(),
    ensures
        lex_token(src, s) matches Ok((t, e)) ==> {
            &&& is_word_kind(t) <==> (is_alphabetic(src[s]) || src[s] == '_')
            &&& t == TokenType::Number <==> is_decimal_digit(src[s])
            &&& is_word_kind(t) ==> word_shape(src, s, e)
            &&& t == TokenType::Number ==> number_shape(src, s, e)
        },
{
    let p = s + 1;
    lemma_identifier_end_bounds(src, p);
    lemma_digits_end_bounds(src, p);
    lemma_lex_token_end(src, s);
    if p < src.len() {
        let q = digits_end(src, p);
        lemma_digits_end_bounds(src, q + 1);
        if q < src.len() {
            assert(!is_decimal_digit(src[q]));
        }
    }
}

/// Every word of a successful scan begins with a letter or `_`, holds only
/// letters, digits and `_`, and is followed by no such character: it is the
/// longest run of them. Every token that begins with a letter or `_` is a
/// word.
pub proof fn scan_words_are_longest_runs_of_word_chars(src: Seq<char>)
    ensures
        scan_spec(src) matches Ok(tokens) ==> forall|i: int|
            0 <= i < tokens.len() - 1 ==> {
                &&& is_word_kind(#[trigger] tokens[i].typ) <==> (is_alphabetic(
                    src[token_starts(src, 0)[i]],
                ) || src[token_starts(src, 0)[i]] == '_')
                &&& is_word_kind(tokens[i].typ) ==> word_shape(
                    src,
                    token_starts(src, 0)[i],
                    lexeme_end(token_starts(src, 0), tokens, i),
                )
            },
{
    let p = |s: int, t: TokenType, e: int|
        (is_word_kind(t) <==> (is_alphabetic(src[s]) || src[s] == '_')) && (is_word_kind(t)
            ==> word_shape(src, s, e));
    assert forall|s: int| 0 <= s < src.len() implies (#[trigger] lex_token(src, s) matches Ok(
        (t, e),
    ) ==> p(s, t, e)) by {
        lemma_token_shapes(src, s);
    }
    lemma_every_token(src, 0, 1, p);
}

/// Every number of a successful scan begins with a digit and holds digits and
/// at most one dot, only after two or more digits; no digit follows it, and a
/// dot follows it only if it is a single digit or already has its dot. Every
/// token that begins with a digit is a number.
pub proof fn scan_numbers_take_every_digit_and_their_fraction(src: Seq<char>)
    ensures
        scan_spec(src) matches Ok(tokens) ==> forall|i: int|
            0 <= i < tokens.len() - 1 ==> {
                &&& #[trigger] tokens[i].typ == TokenType::Number <==> is_decimal_digit(
                    src[token_starts(src, 0)[i]],
                )
                &&& tokens[i].typ == TokenType::Number ==> number_shape(
                    src,
                    token_starts(src, 0)[i],
                    lexeme_end(token_starts(src, 0), tokens, i),
                )
            },
{
    let p = |s: int, t: TokenType, e: int|
        (t == TokenType::Number <==> is_decimal_digit(src[s])) && (t == TokenType::Number
            ==> number_shape(src, s, e));
    assert forall|s: int| 0 <= s < src.len() implies (#[trigger] lex_token(src, s) matches Ok(
        (t, e),
    ) ==> p(s, t, e)) by {
        lemma_token_shapes(src, s);
    }
    lemma_every_token(src, 0, 1, p);
}

/// A character that can begin no token: not white space, punctuation, a
/// quote, a digit, a letter or `_`.
pub open spec fn cannot_begin_token(c: char) -> bool {
    &&& !is_unicode_white_space(c)
    &&& !is_punctuation(c)
    &&& c != '"'
    &&& !is_decimal_digit(c)
    &&& !is_alphabetic(c)
    &&& c != '_'
}

/// The white space that the scanner skips is the Unicode `White_Space` set,
/// and the characters it rejects are exactly those that can begin no token.
proof fn lemma_character_classes(c: char)
    ensures
        is_white_space(c) == is_unicode_white_space(c),
        begins_no_token(c) == cannot_begin_token(c),
{
}

/// The first position at or after `pos` whose character can begin no token.
pub open spec fn first_rejected(src: Seq<char>, pos: int) -> Option<int>
    decreases src.len() - pos,
{
    if 0 <= pos < src.len() {
        if cannot_begin_token(src[pos]) {
            Some(pos)
        } else {
            first_rejected(src, pos + 1)
        }
    } else {
        None
    }
}

proof fn lemma_first_rejected(src: Seq<char>, pos: int)
    requires
        0 <= pos <= src.len(),
    ensures
        first_rejected(src, pos) == first_unexpected(src, pos),
    decreases src.len() - pos,
{
    if pos < src.len() {
        lemma_character_classes(src[pos]);
        lemma_first_rejected(src, pos + 1);
    }
}

/// A scan never rejects white space: a failed scan never reports a
/// character of the Unicode `White_Space` set, carriage return included.
pub proof fn scan_never_rejects_white_space(src: Seq<char>)
    ensures
        scan_spec(src) matches Err(ScanError::UnexpectedChar(c)) ==> !is_unicode_white_space(c),
{
    scan_errors_are_explained(src);
    if let Err(ScanError::UnexpectedChar(c)) = scan_spec(src) {
        lemma_character_classes(c);
    }
}

/// Skipping white space over a stretch of only white space reaches its end.
proof fn lemma_skip_all_white_space(src: Seq<char>, pos: int)
    requires
        0 <= pos <= src.len(),
        forall|k: int| pos <= k < src.len() ==> is_unicode_white_space(#[trigger] src[k]),
    ensures
        skip_white_space(src, pos) == src.len(),
    decreases src.len() - pos,
{
    if pos < src.len() {
        lemma_character_classes(src[pos]);
        lemma_skip_all_white_space(src, pos + 1);
    }
}

/// A source of only white space scans to `Eof` alone, on the line after all
/// its line feeds.
pub proof fn white_space_only_scans_to_eof(src: Seq<char>)
    requires
        forall|k: int| 0 <= k < src.len() ==> is_unicode_white_space(#[trigger] src[k]),
    ensures
        scan_spec(src) == Ok::<Seq<TokenModel>, ScanError>(
            seq![TokenModel { typ: TokenType::Eof, line: 1 + newlines(src), lexeme: Seq::empty() }],
        ),
{
    lemma_skip_all_white_space(src, 0);
    assert(src.subrange(0, src.len() as int) =~= src);
}

/// A token that begins with a character that is not white space fails, with
/// that character, exactly when the character can begin no token.
pub proof fn token_rejects_what_begins_no_token(src: Seq<char>, s: int)
    requires
        0 <= s < src.len(),
        !is_unicode_white_space(src[s]),
    ensures
        (lex_token(src, s) matches Err(ScanError::UnexpectedChar(_))) <==> cannot_begin_token(
            src[s],
        ),
        cannot_begin_token(src[s]) ==> lex_token(src, s) == Err::<(TokenType, int), ScanError>(
            ScanError::UnexpectedChar(src[s]),
        ),
{
    lemma_character_classes(src[s]);
    token_errors(src, s);
}

/// In a source without quotes, the scan fails exactly when some character
/// can begin no token, and it then reports the first such character;
/// otherwise it succeeds.
pub proof fn scan_rejects_first_character_that_begins_no_token(src: Seq<char>)
    requires
        forall|k: int| 0 <= k < src.len() ==> #[trigger] src[k] != '"',
    ensures
        match first_rejected(src, 0) {
            Some(k) => scan_spec(src) == Err::<Seq<TokenModel>, ScanError>(
                ScanError::UnexpectedChar(src[k]),
            ),
            None => scan_spec(src) is Ok,
        },
        first_rejected(src, 0) matches Some(k) ==> 0 <= k < src.len() && cannot_begin_token(
            src[k],
        ) && forall|j: int| 0 <= j < k ==> !cannot_begin_token(#[trigger] src[j]),
        first_rejected(src, 0) is None ==> forall|j: int|
            0 <= j < src.len() ==> !cannot_begin_token(#[trigger] src[j]),
{
    lemma_first_rejected(src, 0);
    scan_reports_first_unexpected_char(src);
    assert forall|j: int| 0 <= j < src.len() implies begins_no_token(#[trigger] src[j])
        == cannot_begin_token(src[j]) by {
        lemma_character_classes(src[j]);
    }
}

/// All characters of `s` are ASCII digits.
pub open spec fn all_decimal_digits(s: Seq<char>) -> bool {
    forall|i: int| 0 <= i < s.len() ==> is_decimal_digit(#[trigger] s[i])
}

/// An optional sign: nothing, `+` or `-`.
pub open spec fn is_optional_sign(s: Seq<char>) -> bool {
    s == Seq::<char>::empty() || s == seq!['+'] || s == seq!['-']
}

/// The text of a decimal literal put together from its parts: a sign, the
/// integer digits, a dot if `dot`, the fraction digits, and, if `exp`, the
/// exponent letter `e`, the exponent's sign and its digits.
pub open spec fn decimal_literal_text(
    sign: Seq<char>,
    int_digits: Seq<char>,
    dot: bool,
    frac_digits: Seq<char>,
    exp: bool,
    e: char,
    exp_sign: Seq<char>,
    exp_digits: Seq<char>,
) -> Seq<char> {
    sign + int_digits + (if dot {
        seq!['.']
    } else {
        Seq::empty()
    }) + frac_digits + (if exp {
        seq![e] + exp_sign + exp_digits
    } else {
        Seq::empty()
    })
}

/// A run of digits from `a` that stops at `b` ends at `b`.
proof fn lemma_digits_end_exact(s: Seq<char>, a: int, b: int)
    requires
        0 <= a <= b <= s.len(),
        forall|k: int| a <= k < b ==> is_decimal_digit(#[trigger] s[k]),
        b == s.len() || !is_decimal_digit(s[b]),
    ensures
        digits_end(s, a) == b,
    decreases b - a,
{
    if a < b {
        lemma_digits_end_exact(s, a + 1, b);
    }
}

/// Every text in the decimal grammar that `str::parse::<f64>` documents is
/// accepted: an optional sign; digits, digits and a dot and perhaps more
/// digits, or a dot and digits; then optionally `e` or `E`, an optional sign
/// and digits. So `1e5`, `2.5E-10`, `5.` and `.5` are all accepted.
#[verifier::spinoff_prover]
#[verifier::rlimit(50)]
pub proof fn decimal_literals_are_float_literals(
    sign: Seq<char>,
    int_digits: Seq<char>,
    dot: bool,
    frac_digits: Seq<char>,
    exp: bool,
    e: char,
    exp_sign: Seq<char>,
    exp_digits: Seq<char>,
)
    requires
        is_optional_sign(sign),
        all_decimal_digits(int_digits),
        all_decimal_digits(frac_digits),
        dot ==> int_digits.len() + frac_digits.len() >= 1,
        !dot ==> int_digits.len() >= 1 && frac_digits.len() == 0,
        exp ==> (e == 'e' || e == 'E') && is_optional_sign(exp_sign) && exp_digits.len() >= 1
            && all_decimal_digits(exp_digits),
    ensures
        is_float_literal(
            decimal_literal_text(sign, int_digits, dot, frac_digits, exp, e, exp_sign, exp_digits),
        ),
{
    let d: Seq<char> = if dot {
        seq!['.']
    } else {
        Seq::empty()
    };
    let x: Seq<char> = if exp {
        seq![e] + exp_sign + exp_digits
    } else {
        Seq::empty()
    };
    let rest = int_digits + d + frac_digits + x;
    let text = decimal_literal_text(sign, int_digits, dot, frac_digits, exp, e, exp_sign, exp_digits);
    assert(text =~= sign + rest);
    let il = int_digits.len() as int;
    let fl = frac_digits.len() as int;
    let dl = d.len() as int;
    let m = il + dl + fl;
    assert forall|k: int| 0 <= k < il implies rest[k] == int_digits[k] by {}
    assert forall|k: int| 0 <= k < fl implies rest[il + dl + k] == frac_digits[k] by {}
    assert forall|k: int| 0 <= k < x.len() implies rest[m + k] == x[k] by {}
    if dot {
        assert(rest[il] == '.');
    }
    if exp {
        assert(x[0] == e);
        assert(!is_decimal_digit(e));
    }
    // The integer digits end where the dot, the exponent or the text does.
    lemma_digits_end_exact(rest, 0, il);
    if dot {
        assert forall|k: int| il + 1 <= k < m implies is_decimal_digit(#[trigger] rest[k]) by {
            assert(rest[il + dl + (k - il - 1)] == frac_digits[k - il - 1]);
        }
        lemma_digits_end_exact(rest, il + 1, m);
    }
    // The sign, if any, is dropped, and nothing else looks like one.
    if sign.len() == 0 {
        assert(text =~= rest);
        if il > 0 {
            assert(rest[0] == int_digits[0]);
        } else {
            assert(rest[0] == '.');
        }
    } else {
        assert(text.drop_first() =~= rest);
    }
    if exp {
        assert(rest.skip(m) =~= x);
        let j: int = 1 + exp_sign.len() as int;
        if exp_sign.len() > 0 {
            assert(x[1] == exp_sign[0]);
        } else {
            assert(x[1] == exp_digits[0]);
        }
        assert forall|k: int| j <= k < x.len() implies is_decimal_digit(#[trigger] x[k]) by {
            assert(x[k] == exp_digits[k - j]);
        }
        lemma_digits_end_exact(x, j, x.len() as int);
    } else {
        assert(m == rest.len());
    }
}

/// `inf`, `infinity` and `nan`, in any mix of upper and lower case and with
/// an optional sign, are accepted.
pub proof fn special_float_words_are_float_literals(
    sign: Seq<char>,
    word: Seq<char>,
    text: Seq<char>,
)
    requires
        is_optional_sign(sign),
        word == seq!['i', 'n', 'f'] || word == seq!['i', 'n', 'f', 'i', 'n', 'i', 't', 'y'] || word
            == seq!['n', 'a', 'n'],
        text.len() == word.len(),
        forall|i: int|
            0 <= i < text.len() ==> #[trigger] text[i] == word[i] || (text[i] as int) + 32
                == word[i] as int,
    ensures
        is_float_literal(sign + text),
{
    let full = sign + text;
    if sign.len() == 0 {
        assert(full =~= text);
        assert(text[0] == word[0] || (text[0] as int) + 32 == word[0] as int);
    } else {
        assert(full.drop_first() =~= text);
    }
}

} // verus!
