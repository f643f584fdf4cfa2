//! The text that the REPL prints for tokens and scan errors.

use vstd::prelude::*;

use crate::scan::{ScanError, Token, TokenModel, TokenType};
use std::string::String;
use vstd::string::to_string_from_display_ensures;

verus! {

/// The text of a token: the name of its kind, and for numbers, identifiers
/// and strings a space and the lexeme.
pub open spec fn token_text(t: TokenModel) -> Seq<char> {
    match t.typ {
        TokenType::Plus => "PLUS"@,
        TokenType::Minus => "MINUS"@,
        TokenType::Star => "STAR"@,
        TokenType::Slash => "SLASH"@,
        TokenType::Equal => "EQUAL"@,
        TokenType::Less => "LESS"@,
        TokenType::LessEqual => "LESS_EQUAL"@,
        TokenType::Greater => "GREATER"@,
        TokenType::GreaterEqual => "GREATER_EQUAL"@,
        TokenType::LeftParen => "LEFT_PAREN"@,
        TokenType::RightParen => "RIGHT_PAREN"@,
        TokenType::LeftBrace => "LEFT_BRACE"@,
        TokenType::RightBrace => "RIGHT_BRACE"@,
        TokenType::Number => "NUM "@ + t.lexeme,
        TokenType::Identifier => "IDENT "@ + t.lexeme,
        TokenType::String => "STRING "@ + t.lexeme,
        TokenType::If => "IF"@,
        TokenType::Else => "ELSE"@,
        TokenType::Fn => "FN"@,
        TokenType::Return => "RETURN"@,
        TokenType::Let => "LET"@,
        TokenType::Semicolon => "SEMICOLON"@,
        TokenType::Comma => "COMMA"@,
        TokenType::Dot => "DOT"@,
        TokenType::Eof => "EOF"@,
    }
}

/// Calls `char::to_string`, which writes the character itself.
#[verifier::external_body]
pub(crate) fn char_string(c: char) -> (s: String)
    ensures
        s@ == seq![c],
{
    c.to_string()
}

impl<'a> Token<'a> {
    /// The token as the REPL prints it.
    pub fn to_string(&self) -> (text: String)
        ensures
            text@ == token_text(self@),
    {
        match self.typ() {
            TokenType::Plus => String::from_str("PLUS"),
            TokenType::Minus => String::from_str("MINUS"),
            TokenType::Star => String::from_str("STAR"),
            TokenType::Slash => String::from_str("SLASH"),
            TokenType::Equal => String::from_str("EQUAL"),
            TokenType::Less => String::from_str("LESS"),
            TokenType::LessEqual => String::from_str("LESS_EQUAL"),
            TokenType::Greater => String::from_str("GREATER"),
            TokenType::GreaterEqual => String::from_str("GREATER_EQUAL"),
            TokenType::LeftParen => String::from_str("LEFT_PAREN"),
            TokenType::RightParen => String::from_str("RIGHT_PAREN"),
            TokenType::LeftBrace => String::from_str("LEFT_BRACE"),
            TokenType::RightBrace => String::from_str("RIGHT_BRACE"),
            TokenType::Number => {
                let mut text = String::from_str("NUM ");
                text.append(self.lexeme());
                text
            },
            TokenType::Identifier => {
                let mut text = String::from_str("IDENT ");
                text.append(self.lexeme());
                text
            },
            TokenType::String => {
                let mut text = String::from_str("STRING ");
                text.append(self.lexeme());
                text
            },
            TokenType::If => String::from_str("IF"),
            TokenType::Else => String::from_str("ELSE"),
            TokenType::Fn => String::from_str("FN"),
            TokenType::Return => String::from_str("RETURN"),
            TokenType::Let => String::from_str("LET"),
            TokenType::Semicolon => String::from_str("SEMICOLON"),
            TokenType::Comma => String::from_str("COMMA"),
            TokenType::Dot => String::from_str("DOT"),
            TokenType::Eof => String::from_str("EOF"),
        }
    }
}

impl ScanError {
    /// The error as a message.
    pub fn to_string(&self) -> (text: String)
        ensures
            match self {
                ScanError::UnexpectedChar(c) => text@ == "Unexpected character: "@ + seq![*c],
                ScanError::UnterminatedString => text@ == "Unterminated string"@,
                ScanError::Io(error) => exists|shown: String|
                    to_string_from_display_ensures::<std::io::Error>(error, shown) && text@
                        == "I/O error: "@ + shown@,
            },
    {
        match self {
            ScanError::Io(error) => {
                let shown = error.to_string();
                let mut text = String::from_str("I/O error: ");
                text.append(shown.as_str());
                text
            },
            ScanError::UnexpectedChar(c) => {
                let mut text = String::from_str("Unexpected character: ");
                text.append(char_string(*c).as_str());
                text
            },
            ScanError::UnterminatedString => String::from_str("Unterminated string"),
        }
    }
}

} // verus!
