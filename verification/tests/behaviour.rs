use bulb::compilation::{float_literal, Compiler, Opcode, ParseError};
use bulb::scan::{ScanError, Scanner, Token, TokenType};

fn kinds_and_lexemes(source: &str) -> Vec<(TokenType, String)> {
    Scanner::new(source)
        .scan()
        .expect("source should scan")
        .iter()
        .map(|t| (t.typ(), t.lexeme().to_string()))
        .collect()
}

fn pairs(expected: &[(TokenType, &str)]) -> Vec<(TokenType, String)> {
    expected.iter().map(|(t, l)| (*t, l.to_string())).collect()
}

#[test]
fn a_fraction_follows_only_two_or_more_digits() {
    assert_eq!(
        kinds_and_lexemes("1.5 12.5 12. 12.3.4"),
        pairs(&[
            (TokenType::Number, "1"),
            (TokenType::Dot, "."),
            (TokenType::Number, "5"),
            (TokenType::Number, "12.5"),
            (TokenType::Number, "12."),
            (TokenType::Number, "12.3"),
            (TokenType::Dot, "."),
            (TokenType::Number, "4"),
            (TokenType::Eof, ""),
        ])
    );
}

#[test]
fn a_nul_character_leaves_a_string_unterminated() {
    assert!(matches!(
        Scanner::new("\"a\0b\"").scan(),
        Err(ScanError::UnterminatedString)
    ));
}

#[test]
fn let_is_a_keyword_and_digits_continue_words() {
    assert_eq!(
        kinds_and_lexemes("let lettuce _9 9_"),
        pairs(&[
            (TokenType::Let, "let"),
            (TokenType::Identifier, "lettuce"),
            (TokenType::Identifier, "_9"),
            (TokenType::Number, "9"),
            (TokenType::Identifier, "_"),
            (TokenType::Eof, ""),
        ])
    );
}

#[test]
fn lexemes_are_the_source_between_white_space() {
    let source = "  a  +\n bc\t\"s t\"";
    let tokens = Scanner::new(source).scan().unwrap();
    let lexemes: Vec<&str> = tokens.iter().map(|t| t.lexeme()).collect();
    assert_eq!(lexemes, vec!["a", "+", "bc", "\"s t\"", ""]);
    let mut rebuilt = String::new();
    let mut rest = source;
    for lexeme in &lexemes[..lexemes.len() - 1] {
        let at = rest.find(lexeme).unwrap();
        assert!(rest[..at].chars().all(char::is_whitespace));
        rebuilt.push_str(lexeme);
        rest = &rest[at + lexeme.len()..];
    }
    assert!(rest.chars().all(char::is_whitespace));
    assert_eq!(rebuilt, "a+bc\"s t\"");
}

#[test]
fn a_scan_ends_with_one_empty_eof() {
    for source in ["", "x", "  \n", "1 + 2;", "\"\""] {
        let tokens = Scanner::new(source).scan().unwrap();
        let last = tokens.last().unwrap();
        assert_eq!(last.typ(), TokenType::Eof);
        assert_eq!(last.lexeme(), "");
        for token in &tokens[..tokens.len() - 1] {
            assert_ne!(token.typ(), TokenType::Eof);
            assert!(!token.lexeme().is_empty());
        }
    }
}

#[test]
fn lines_count_the_line_feeds_before_each_lexeme_ends() {
    let tokens = Scanner::new("a\n\nb \"x\ny\"\nc").scan().unwrap();
    let lines: Vec<usize> = tokens.iter().map(|t| t.line()).collect();
    assert_eq!(lines, vec![1, 3, 4, 5, 5]);
}

#[test]
fn unexpected_characters_come_from_the_source() {
    for (source, expected) in [("#", '#'), ("a ~ b", '~'), ("1 + 2 $", '$')] {
        match Scanner::new(source).scan() {
            Err(ScanError::UnexpectedChar(c)) => assert_eq!(c, expected),
            _ => panic!("source: {source:?}"),
        }
    }
}

#[test]
fn scan_errors_have_messages() {
    assert_eq!(
        ScanError::UnexpectedChar('@').to_string(),
        "Unexpected character: @"
    );
    assert_eq!(
        ScanError::UnexpectedChar('💡').to_string(),
        "Unexpected character: 💡"
    );
    let io = std::io::Error::new(std::io::ErrorKind::Other, "disk gone");
    assert_eq!(ScanError::Io(io).to_string(), "I/O error: disk gone");
    let converted: ScanError = std::io::Error::new(std::io::ErrorKind::Other, "x").into();
    assert!(matches!(converted, ScanError::Io(_)));
}

#[test]
fn every_kind_has_its_display_name() {
    for (typ, expected) in [
        (TokenType::Plus, "PLUS"),
        (TokenType::Minus, "MINUS"),
        (TokenType::Star, "STAR"),
        (TokenType::Slash, "SLASH"),
        (TokenType::LeftParen, "LEFT_PAREN"),
        (TokenType::RightParen, "RIGHT_PAREN"),
        (TokenType::LeftBrace, "LEFT_BRACE"),
        (TokenType::RightBrace, "RIGHT_BRACE"),
        (TokenType::If, "IF"),
        (TokenType::Else, "ELSE"),
        (TokenType::Let, "LET"),
        (TokenType::Semicolon, "SEMICOLON"),
        (TokenType::Eof, "EOF"),
    ] {
        assert_eq!(Token::new(typ, 1, "").to_string(), expected);
    }
    assert_eq!(Token::new(TokenType::Number, 1, "4.5").to_string(), "NUM 4.5");
    assert_eq!(Token::new(TokenType::Identifier, 1, "变量").to_string(), "IDENT 变量");
}

#[test]
fn token_parts_are_kept() {
    let token = Token::new(TokenType::Identifier, 9, "name");
    assert_eq!(token.typ(), TokenType::Identifier);
    assert_eq!(token.line(), 9);
    assert_eq!(token.lexeme(), "name");
}

#[test]
fn unicode_white_space_and_letters_are_recognized() {
    assert_eq!(
        kinds_and_lexemes("\u{00a0}ü\u{3000}ß"),
        pairs(&[
            (TokenType::Identifier, "ü"),
            (TokenType::Identifier, "ß"),
            (TokenType::Eof, ""),
        ])
    );
}

#[test]
fn compiling_nothing_is_an_unexpected_token() {
    assert!(matches!(
        Compiler::new(vec![]).compile(),
        Err(ParseError::UnexpectedToken)
    ));
}

#[test]
fn compiling_a_scanned_number_gives_one_constant() {
    let tokens = Scanner::new("\n42;").scan().unwrap();
    let instructions = Compiler::new(tokens).compile().expect("a number compiles");
    assert_eq!(instructions.len(), 1);
    assert_eq!(instructions[0].line(), 2);
    assert_eq!(instructions[0].opcode(), &Opcode::Const("42".to_string()));
}

#[test]
fn compiling_text_that_is_no_float_is_refused() {
    let tokens = vec![Token::new(TokenType::Number, 1, "4x")];
    assert!(matches!(
        Compiler::new(tokens).compile(),
        Err(ParseError::InvalidNumericLiteral)
    ));
}

#[test]
fn float_literals_follow_the_documented_grammar() {
    for text in [
        "0", "42", "3.14", "-3.14", "2.5E10", "2.5e-10", "5.", ".5", "+.5e+3", "inf", "-INF",
        "+infinity", "NaN", "nan", "Infinity", "007",
    ] {
        assert!(float_literal(text), "{text:?}");
        assert!(text.parse::<f64>().is_ok(), "{text:?}");
    }
    for text in [
        "", ".", "+", "-.", "e5", "1e", "1e+", "1.2.3", " 1", "1 ", "infin", "nana", "0x10",
        "1_000", "++1", "1e5.0",
    ] {
        assert!(!float_literal(text), "{text:?}");
        assert!(text.parse::<f64>().is_err(), "{text:?}");
    }
}

#[test]
fn the_first_character_that_begins_no_token_is_reported() {
    for (source, expected) in [("a $ # b", '$'), ("12 + x3 ~ @", '~'), ("\u{3000}`", '`')] {
        match Scanner::new(source).scan() {
            Err(ScanError::UnexpectedChar(c)) => assert_eq!(c, expected, "source: {source:?}"),
            _ => panic!("source: {source:?}"),
        }
    }
    assert!(Scanner::new("a_1 <= (b2 + 3.25);\n{ fn }").scan().is_ok());
}

#[test]
fn tokens_take_the_longest_match() {
    assert_eq!(
        kinds_and_lexemes("==<==>=> x9y 123a"),
        pairs(&[
            (TokenType::Equal, "="),
            (TokenType::Equal, "="),
            (TokenType::LessEqual, "<="),
            (TokenType::Equal, "="),
            (TokenType::GreaterEqual, ">="),
            (TokenType::Greater, ">"),
            (TokenType::Identifier, "x9y"),
            (TokenType::Number, "123"),
            (TokenType::Identifier, "a"),
            (TokenType::Eof, ""),
        ])
    );
}

#[test]
fn a_string_line_is_the_line_of_its_closing_quote_and_eof_counts_every_line_feed() {
    let source = "x\n\"a\nb\nc\" y\n";
    let tokens = Scanner::new(source).scan().unwrap();
    let lines: Vec<(TokenType, usize)> = tokens.iter().map(|t| (t.typ(), t.line())).collect();
    assert_eq!(
        lines,
        vec![
            (TokenType::Identifier, 1),
            (TokenType::String, 4),
            (TokenType::Identifier, 4),
            (TokenType::Eof, 5),
        ]
    );
    assert_eq!(tokens.last().unwrap().line(), 1 + source.matches('\n').count());
}

#[test]
fn instructions_keep_their_parts() {
    let instruction = bulb::compilation::Instruction::new(Opcode::Const("2.5".to_string()), 8);
    assert_eq!(instruction.line(), 8);
    assert_eq!(instruction.opcode(), &Opcode::Const("2.5".to_string()));
}
