//! Tokens and the scanner that produces them.

use vstd::prelude::*;

use crate::chars::{
    ascii_digit, char_is_whitespace, identifier_continue, identifier_start, is_ascii_digit,
};
use crate::grammar::{
    digits_end, identifier_end, keyword_type, lemma_lex_token_end, lemma_newlines_extend,
    lemma_prepend_twice, lemma_rescan_after_white_space, lemma_scan_from_token,
    lemma_skip_white_space_bounds, lex_token, newlines, number_end, prepend, scan_from, scan_spec,
    skip_white_space, string_end, token_line, word_type,
};

verus! {

/// `std::io::Error`, carried by `ScanError::Io`.
#[verifier::external_type_specification]
#[verifier::external_body]
pub struct ExIoError(std::io::Error);

/// The kinds of token.
#[derive(Debug, PartialEq, Eq, Clone, Copy, Structural)]
pub enum TokenType {
    Plus,
    Minus,
    Star,
    Slash,
    Equal,
    Less,
    LessEqual,
    Greater,
    GreaterEqual,
    LeftParen,
    RightParen,
    LeftBrace,
    RightBrace,
    Number,
    Identifier,
    String,
    If,
    Else,
    Fn,
    Return,
    Let,
    Semicolon,
    Comma,
    Dot,
    Eof,
}

/// What a token stands for: its kind, its line and the text of its lexeme.
pub struct TokenModel {
    pub typ: TokenType,
    pub line: nat,
    pub lexeme: Seq<char>,
}

/// A token: its kind, the line on which the scanner made it, and its lexeme,
/// a slice of the scanned source.
#[derive(Debug, PartialEq, Clone, Copy)]
pub struct Token<'a> {
    typ: TokenType,
    line: usize,
    lexeme: &'a str,
}

impl<'a> View for Token<'a> {
    type V = TokenModel;

    closed spec fn view(&self) -> TokenModel {
        TokenModel { typ: self.typ, line: self.line as nat, lexeme: self.lexeme@ }
    }
}

impl<'a> Token<'a> {
    /// Makes a token from its parts.
    pub fn new(typ: TokenType, line: usize, lexeme: &'a str) -> (t: Token<'a>)
        ensures
            t@ == (TokenModel { typ, line: line as nat, lexeme: lexeme@ }),
    {
        Token { typ, line, lexeme }
    }

    /// The token's kind.
    pub fn typ(&self) -> (r: TokenType)
        ensures
            r == self@.typ,
    {
        self.typ
    }

    /// The line on which the token was made.
    pub fn line(&self) -> (r: usize)
        ensures
            r == self@.line,
    {
        self.line
    }

    /// The token's lexeme.
    pub fn lexeme(&self) -> (r: &'a str)
        ensures
            r@ == self@.lexeme,
    {
        self.lexeme
    }
}

/// Why a scan failed.
#[derive(Debug)]
pub enum ScanError {
    /// A character that begins no token.
    UnexpectedChar(char),
    /// An input error.
    Io(std::io::Error),
    /// A string literal that the source does not close.
    UnterminatedString,
}

impl vstd::std_specs::convert::FromSpecImpl<std::io::Error> for ScanError {
    open spec fn obeys_from_spec() -> bool {
        true
    }

    open spec fn from_spec(value: std::io::Error) -> Self {
        ScanError::Io(value)
    }
}

impl From<std::io::Error> for ScanError {
    fn from(value: std::io::Error) -> (r: ScanError) {
        ScanError::Io(value)
    }
}

/// The models of a sequence of tokens.
pub open spec fn models<'a>(tokens: Seq<Token<'a>>) -> Seq<TokenModel> {
    tokens.map_values(|t: Token<'a>| t@)
}

/// The character at `i`, or NUL past the end, as the scanner peeks it.
pub open spec fn char_at(src: Seq<char>, i: int) -> char {
    if 0 <= i < src.len() {
        src[i]
    } else {
        '\0'
    }
}

/// The reserved words in a table whose entries are the keywords in the order
/// `keyword_type` tests them.
pub open spec fn is_keyword_table(table: Seq<(&'static str, TokenType)>) -> bool {
    &&& table.len() == 5
    &&& table[0].0@ == seq!['i', 'f'] && table[0].1 == TokenType::If
    &&& table[1].0@ == seq!['e', 'l', 's', 'e'] && table[1].1 == TokenType::Else
    &&& table[2].0@ == seq!['f', 'n'] && table[2].1 == TokenType::Fn
    &&& table[3].0@ == seq!['r', 'e', 't', 'u', 'r', 'n'] && table[3].1 == TokenType::Return
    &&& table[4].0@ == seq!['l', 'e', 't'] && table[4].1 == TokenType::Let
}

/// Turns a source into tokens.
pub struct Scanner<'a> {
    source: &'a str,
    chars: Vec<char>,
    start: usize,
    current: usize,
    line: usize,
    keywords: Vec<(&'static str, TokenType)>,
}

/// The characters of `source`, in order.
pub(crate) fn chars_of(source: &str) -> (v: Vec<char>)
    ensures
        v@ == source@,
{
    broadcast use vstd::string::group_string_axioms;

    let mut v: Vec<char> = Vec::new();
    for c in it: source.chars()
        invariant
            v@ == it.history(),
            it.seq() == source@,
    {
        v.push(c);
    }
    assert(v@ =~= source@);
    v
}

impl<'a> Scanner<'a> {
    /// The characters of the source that the scanner reads.
    pub closed spec fn text(&self) -> Seq<char> {
        self.source@
    }

    /// The scanner is as `new` made it: at the first character, on line 1.
    pub closed spec fn is_fresh(&self) -> bool {
        &&& self.chars@ == self.source@
        &&& is_keyword_table(self.keywords@)
        &&& self.start == 0
        &&& self.current == 0
        &&& self.line == 1
    }

    /// What holds of the scanner's state between steps.
    spec fn well_formed(&self) -> bool {
        &&& self.chars@ == self.source@
        &&& self.chars.len() < usize::MAX
        &&& is_keyword_table(self.keywords@)
        &&& self.start <= self.current <= self.chars.len()
        &&& 1 <= self.line <= self.current + 1
    }

    /// A scanner at the start of `source`.
    pub fn new(source: &'a str) -> (s: Scanner<'a>)
        ensures
            s.text() == source@,
            s.is_fresh(),
    {
        Scanner {
            source,
            chars: chars_of(source),
            start: 0,
            current: 0,
            line: 1,
            keywords: Self::keywords(),
        }
    }

    /// The reserved words and their kinds, as a table searched in order.
    /// vstd's contracts for `HashMap` hold only for key types that obey its
    /// key model, which it grants to integer and `bool` keys but not to
    /// `&str`, so a map here would give the lookup no provable result.
    fn keywords() -> (table: Vec<(&'static str, TokenType)>)
        ensures
            is_keyword_table(table@),
    {
        let table = vec![
            ("if", TokenType::If),
            ("else", TokenType::Else),
            ("fn", TokenType::Fn),
            ("return", TokenType::Return),
            ("let", TokenType::Let),
        ];
        proof {
            reveal_strlit("if");
            reveal_strlit("else");
            reveal_strlit("fn");
            reveal_strlit("return");
            reveal_strlit("let");
            assert(table@[0].0@ =~= seq!['i', 'f']);
            assert(table@[1].0@ =~= seq!['e', 'l', 's', 'e']);
            assert(table@[2].0@ =~= seq!['f', 'n']);
            assert(table@[3].0@ =~= seq!['r', 'e', 't', 'u', 'r', 'n']);
            assert(table@[4].0@ =~= seq!['l', 'e', 't']);
        }
        table
    }

    /// The character at the scanner's position, NUL at the end.
    fn peek(&self) -> (c: char)
        requires
            self.well_formed(),
        ensures
            c == char_at(self.chars@, self.current as int),
    {
        if self.current < self.chars.len() {
            self.chars[self.current]
        } else {
            '\0'
        }
    }

    /// Steps over the character at the scanner's position and returns it.
    fn consume(&mut self) -> (c: char)
        requires
            old(self).well_formed(),
            old(self).current < old(self).chars.len(),
        ensures
            c == old(self).chars@[old(self).current as int],
            final(self).current == old(self).current + 1,
            final(self).source == old(self).source,
            final(self).chars == old(self).chars,
            final(self).start == old(self).start,
            final(self).line == old(self).line,
            final(self).keywords == old(self).keywords,
    {
        let c = self.peek();
        self.current += 1;
        c
    }

    /// Steps over the character at the scanner's position if it is `c`.
    fn match_char(&mut self, c: char) -> (matched: bool)
        requires
            old(self).well_formed(),
            c != '\0',
        ensures
            matched == (char_at(old(self).chars@, old(self).current as int) == c),
            final(self).current == old(self).current + if matched {
                1int
            } else {
                0int
            },
            final(self).source == old(self).source,
            final(self).chars == old(self).chars,
            final(self).start == old(self).start,
            final(self).line == old(self).line,
            final(self).keywords == old(self).keywords,
    {
        if self.peek() == c {
            self.consume();
            return true;
        }
        false
    }

    /// Whether the scanner has read the whole source.
    fn is_at_end(&self) -> (r: bool)
        ensures
            r == (self.current >= self.chars.len()),
    {
        self.current >= self.chars.len()
    }

    /// A token of kind `typ` whose lexeme spans from the token's start to the
    /// scanner's position.
    fn make(&self, typ: TokenType) -> (t: Token<'a>)
        requires
            self.well_formed(),
        ensures
            t@ == (TokenModel {
                typ,
                line: self.line as nat,
                lexeme: self.chars@.subrange(self.start as int, self.current as int),
            }),
    {
        let lexeme = self.source.substring_char(self.start, self.current);
        Token::new(typ, self.line, lexeme)
    }

    /// Steps over white space, counting the line feeds in it.
    fn skip_whitespace(&mut self)
        requires
            old(self).well_formed(),
        ensures
            final(self).well_formed(),
            final(self).current == skip_white_space(old(self).chars@, old(self).current as int),
            final(self).line == old(self).line + newlines(
                old(self).chars@.subrange(old(self).current as int, final(self).current as int),
            ),
            final(self).source == old(self).source,
            final(self).chars == old(self).chars,
            final(self).start == old(self).start,
            final(self).keywords == old(self).keywords,
    {
        let ghost from = self.current as int;
        let ghost line0 = self.line as int;
        let ghost src = self.chars@;
        proof {
            lemma_skip_white_space_bounds(src, from);
            assert(src.subrange(from, from) =~= Seq::<char>::empty());
        }
        while self.current < self.chars.len() && char_is_whitespace(self.chars[self.current])
            invariant
                self.well_formed(),
                self.chars@ == src,
                0 <= from <= self.current,
                skip_white_space(src, self.current as int) == skip_white_space(src, from),
                self.line == line0 + newlines(src.subrange(from, self.current as int)),
                self.source == old(self).source,
                self.chars == old(self).chars,
                self.start == old(self).start,
                self.keywords == old(self).keywords,
            decreases self.chars.len() - self.current,
        {
            let ghost at = self.current as int;
            proof {
                lemma_newlines_extend(src, from, at);
            }
            if self.consume() == '\n' {
                self.line += 1;
            }
        }
    }

    /// Whether the lexeme so far is the text `word`.
    fn lexeme_is(&self, word: &str) -> (r: bool)
        requires
            self.well_formed(),
        ensures
            r == (self.chars@.subrange(self.start as int, self.current as int) == word@),
    {
        let n = word.unicode_len();
        if n != self.current - self.start {
            proof {
                assert(self.chars@.subrange(self.start as int, self.current as int).len() != word@.len());
            }
            return false;
        }
        let mut i: usize = 0;
        while i < n
            invariant
                self.well_formed(),
                n == word@.len(),
                n == self.current - self.start,
                i <= n,
                forall|j: int| 0 <= j < i ==> self.chars@[self.start + j] == word@[j],
            decreases n - i,
        {
            if self.chars[self.start + i] != word.get_char(i) {
                proof {
                    let lex = self.chars@.subrange(self.start as int, self.current as int);
                    assert(lex[i as int] != word@[i as int]);
                }
                return false;
            }
            i += 1;
        }
        assert(self.chars@.subrange(self.start as int, self.current as int) =~= word@);
        true
    }

    /// The kind of the word scanned so far, looked up among the keywords.
    fn keyword(&self) -> (r: Option<TokenType>)
        requires
            self.well_formed(),
        ensures
            r == keyword_type(self.chars@.subrange(self.start as int, self.current as int)),
    {
        let ghost word = self.chars@.subrange(self.start as int, self.current as int);
        let mut i: usize = 0;
        while i < self.keywords.len()
            invariant
                self.well_formed(),
                i <= self.keywords.len(),
                word == self.chars@.subrange(self.start as int, self.current as int),
                forall|j: int| 0 <= j < i ==> word != #[trigger] self.keywords@[j].0@,
            decreases self.keywords.len() - i,
        {
            let entry = self.keywords[i];
            if self.lexeme_is(entry.0) {
                return Some(entry.1);
            }
            assert(word != self.keywords@[i as int].0@);
            i += 1;
        }
        proof {
            assert(word != self.keywords@[0].0@);
            assert(word != self.keywords@[1].0@);
            assert(word != self.keywords@[2].0@);
            assert(word != self.keywords@[3].0@);
            assert(word != self.keywords@[4].0@);
        }
        None
    }


    /// Steps over a run of ASCII digits.
    fn skip_digits(&mut self)
        requires
            old(self).well_formed(),
        ensures
            final(self).well_formed(),
            final(self).current == digits_end(old(self).chars@, old(self).current as int),
            final(self).source == old(self).source,
            final(self).chars == old(self).chars,
            final(self).start == old(self).start,
            final(self).line == old(self).line,
            final(self).keywords == old(self).keywords,
    {
        let ghost src = self.chars@;
        let ghost from = self.current as int;
        while self.current < self.chars.len() && ascii_digit(self.chars[self.current])
            invariant
                self.well_formed(),
                self.chars@ == src,
                from <= self.current,
                digits_end(src, self.current as int) == digits_end(src, from),
                self.source == old(self).source,
                self.chars == old(self).chars,
                self.start == old(self).start,
                self.line == old(self).line,
                self.keywords == old(self).keywords,
            decreases self.chars.len() - self.current,
        {
            self.current += 1;
        }
    }

    /// Scans the rest of a number whose first digit was just consumed. A
    /// fraction is taken only after a second digit.
    fn number(&mut self) -> (t: Token<'a>)
        requires
            old(self).well_formed(),
            old(self).start < old(self).chars.len(),
            is_ascii_digit(old(self).chars@[old(self).start as int]),
            old(self).current == old(self).start + 1,
        ensures
            final(self).well_formed(),
            final(self).current == number_end(old(self).chars@, old(self).start as int),
            t@ == (TokenModel {
                typ: TokenType::Number,
                line: old(self).line as nat,
                lexeme: old(self).chars@.subrange(
                    old(self).start as int,
                    final(self).current as int,
                ),
            }),
            final(self).source == old(self).source,
            final(self).chars == old(self).chars,
            final(self).start == old(self).start,
            final(self).line == old(self).line,
            final(self).keywords == old(self).keywords,
    {
        if self.current < self.chars.len() && ascii_digit(self.chars[self.current]) {
            self.skip_digits();
            if self.match_char('.') {
                self.skip_digits();
            }
        }
        self.make(TokenType::Number)
    }

    /// Scans the rest of a word whose first character was just consumed, and
    /// tells a keyword from an identifier.
    fn identifier(&mut self) -> (t: Token<'a>)
        requires
            old(self).well_formed(),
            old(self).start < old(self).chars.len(),
            old(self).current == old(self).start + 1,
        ensures
            final(self).well_formed(),
            final(self).current == identifier_end(old(self).chars@, old(self).start + 1),
            t@ == (TokenModel {
                typ: word_type(
                    old(self).chars@.subrange(old(self).start as int, final(self).current as int),
                ),
                line: old(self).line as nat,
                lexeme: old(self).chars@.subrange(
                    old(self).start as int,
                    final(self).current as int,
                ),
            }),
            final(self).source == old(self).source,
            final(self).chars == old(self).chars,
            final(self).start == old(self).start,
            final(self).line == old(self).line,
            final(self).keywords == old(self).keywords,
    {
        let ghost src = self.chars@;
        let ghost from = self.current as int;
        while self.current < self.chars.len() && identifier_continue(self.chars[self.current])
            invariant
                self.well_formed(),
                self.chars@ == src,
                from <= self.current,
                identifier_end(src, self.current as int) == identifier_end(src, from),
                self.source == old(self).source,
                self.chars == old(self).chars,
                self.start == old(self).start,
                self.line == old(self).line,
                self.keywords == old(self).keywords,
            decreases self.chars.len() - self.current,
        {
            self.current += 1;
        }
        let typ = match self.keyword() {
            Some(typ) => typ,
            None => TokenType::Identifier,
        };
        self.make(typ)
    }

    /// Scans the rest of a string literal whose opening quote was just
    /// consumed, counting the line feeds in it. The source's end, or a NUL
    /// character, before the closing quote leaves the string unterminated.
    fn string(&mut self) -> (r: Result<Token<'a>, ScanError>)
        requires
            old(self).well_formed(),
            old(self).start < old(self).chars.len(),
            old(self).chars@[old(self).start as int] == '"',
            old(self).current == old(self).start + 1,
        ensures
            match string_end(old(self).chars@, old(self).start + 1) {
                Some(end) => {
                    &&& final(self).well_formed()
                    &&& final(self).current == end
                    &&& final(self).line == old(self).line + newlines(
                        old(self).chars@.subrange(old(self).start as int, end),
                    )
                    &&& r matches Ok(t) && t@ == (TokenModel {
                        typ: TokenType::String,
                        line: final(self).line as nat,
                        lexeme: old(self).chars@.subrange(old(self).start as int, end),
                    })
                    &&& final(self).source == old(self).source
                    &&& final(self).chars == old(self).chars
                    &&& final(self).start == old(self).start
                    &&& final(self).keywords == old(self).keywords
                },
                None => r matches Err(ScanError::UnterminatedString),
            },
    {
        let ghost src = self.chars@;
        let ghost start = self.start as int;
        let ghost line0 = self.line as int;
        proof {
            lemma_newlines_extend(src, start, start);
            assert(src.subrange(start, start) =~= Seq::<char>::empty());
        }
        loop
            invariant
                self.well_formed(),
                self.chars@ == src,
                self.start == start,
                start == old(self).start,
                src == old(self).chars@,
                line0 == old(self).line,
                start + 1 <= self.current,
                string_end(src, self.current as int) == string_end(src, start + 1),
                self.line == line0 + newlines(src.subrange(start, self.current as int)),
                self.source == old(self).source,
                self.chars == old(self).chars,
                self.keywords == old(self).keywords,
            decreases self.chars.len() - self.current,
        {
            // Past the end the scanner would read NUL, which ends the string
            // unterminated.
            if self.current >= self.chars.len() {
                assert(string_end(src, self.current as int) is None);
                return Err(ScanError::UnterminatedString);
            }
            let ghost at = self.current as int;
            proof {
                lemma_newlines_extend(src, start, at);
            }
            let c = self.consume();
            assert(c == src[at]);
            match c {
                '\0' => {
                    assert(string_end(src, at) is None);
                    return Err(ScanError::UnterminatedString);
                },
                '\n' => self.line += 1,
                '"' => {
                    assert(string_end(src, at) == Some(at + 1));
                    return Ok(self.make(TokenType::String));
                },
                _ => (),
            }
        }
    }

    /// Scans the token that begins at the scanner's position.
    fn token(&mut self) -> (r: Result<Token<'a>, ScanError>)
        requires
            old(self).well_formed(),
            old(self).start == old(self).current,
            old(self).current < old(self).chars.len(),
        ensures
            match lex_token(old(self).chars@, old(self).start as int) {
                Ok((typ, end)) => {
                    &&& final(self).well_formed()
                    &&& final(self).current == end
                    &&& final(self).line == token_line(
                        old(self).chars@,
                        old(self).start as int,
                        end,
                        typ,
                        old(self).line as nat,
                    )
                    &&& r matches Ok(t) && t@ == (TokenModel {
                        typ,
                        line: final(self).line as nat,
                        lexeme: old(self).chars@.subrange(old(self).start as int, end),
                    })
                    &&& final(self).source == old(self).source
                    &&& final(self).chars == old(self).chars
                    &&& final(self).start == old(self).start
                    &&& final(self).keywords == old(self).keywords
                },
                Err(e) => r == Err::<Token<'a>, ScanError>(e),
            },
    {
        Ok(
            match self.consume() {
                '+' => self.make(TokenType::Plus),
                '-' => self.make(TokenType::Minus),
                '*' => self.make(TokenType::Star),
                '/' => self.make(TokenType::Slash),
                '=' => self.make(TokenType::Equal),
                '<' => {
                    if self.match_char('=') {
                        self.make(TokenType::LessEqual)
                    } else {
                        self.make(TokenType::Less)
                    }
                },
                '>' => {
                    if self.match_char('=') {
                        self.make(TokenType::GreaterEqual)
                    } else {
                        self.make(TokenType::Greater)
                    }
                },
                '(' => self.make(TokenType::LeftParen),
                ')' => self.make(TokenType::RightParen),
                '{' => self.make(TokenType::LeftBrace),
                '}' => self.make(TokenType::RightBrace),
                ';' => self.make(TokenType::Semicolon),
                ',' => self.make(TokenType::Comma),
                '.' => self.make(TokenType::Dot),
                '"' => self.string()?,
                c if ascii_digit(c) => self.number(),
                c if identifier_start(c) => self.identifier(),
                c => return Err(ScanError::UnexpectedChar(c)),
            },
        )
    }


    /// Scans the whole source: the tokens in order, ending with `Eof`, or the
    /// first error.
    pub fn scan(self) -> (r: Result<Vec<Token<'a>>, ScanError>)
        requires
            self.is_fresh(),
            self.text().len() < usize::MAX,
        ensures
            match r {
                Ok(tokens) => scan_spec(self.text()) == Ok::<Seq<TokenModel>, ScanError>(
                    models(tokens@),
                ),
                Err(e) => scan_spec(self.text()) == Err::<Seq<TokenModel>, ScanError>(e),
            },
    {
        let mut scanner = self;
        let ghost src = scanner.chars@;
        let mut tokens: Vec<Token<'a>> = vec![];
        proof {
            assert(models(tokens@) =~= Seq::<TokenModel>::empty());
            assert(Seq::<TokenModel>::empty() + scan_spec(src)->Ok_0 =~= scan_spec(src)->Ok_0);
        }
        loop
            invariant
                scanner.well_formed(),
                scanner.chars@ == src,
                src == scanner.source@,
                src == self.text(),
                prepend(models(tokens@), scan_from(src, scanner.current as int, scanner.line as nat))
                    == scan_spec(src),
            ensures
                scanner.well_formed(),
                scanner.chars@ == src,
                scanner.start == scanner.current,
                scanner.current == scanner.chars.len(),
                prepend(models(tokens@), scan_from(src, scanner.current as int, scanner.line as nat))
                    == scan_spec(src),
            decreases scanner.chars.len() - scanner.current,
        {
            let ghost before = scanner.current as int;
            let ghost line_before = scanner.line as nat;
            scanner.skip_whitespace();
            scanner.start = scanner.current;
            proof {
                lemma_skip_white_space_bounds(src, before);
                lemma_rescan_after_white_space(src, before, line_before);
            }
            if scanner.is_at_end() {
                break;
            }
            let ghost prefix = models(tokens@);
            let ghost at = scanner.current as int;
            let ghost line_at = scanner.line as nat;
            proof {
                lemma_scan_from_token(src, at, line_at);
            }
            let token = match scanner.token() {
                Ok(token) => token,
                Err(e) => return Err(e),
            };
            proof {
                lemma_lex_token_end(src, at);
                lemma_prepend_twice(prefix, seq![token@], scan_from(src, scanner.current as int, scanner.line as nat));
                assert(prefix + seq![token@] =~= prefix.push(token@));
            }
            tokens.push(token);
            proof {
                assert(models(tokens@) =~= prefix.push(token@));
            }
        }
        let eof = scanner.make(TokenType::Eof);
        proof {
            assert(src.subrange(scanner.current as int, scanner.current as int) =~= Seq::<char>::empty());
        }
        let ghost prefix = models(tokens@);
        tokens.push(eof);
        proof {
            assert(models(tokens@) =~= prefix + seq![eof@]);
        }
        Ok(tokens)
    }

}

} // verus!
