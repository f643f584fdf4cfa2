use std::io::BufRead;

use bulb::repl::{decimal_text, listing, pad_left_text, repl_step, run, ReplAction, ReplInput};
use bulb::scan::{ScanError, Scanner, Token, TokenType};

/// Drives the REPL's decisions over `input` as the program does over its
/// standard input: a prompt before each read, one `read_line` per step, and
/// the same messages on the error stream.
fn session(input: &[u8]) -> (String, String) {
    let mut reader = std::io::Cursor::new(input);
    let mut stdout = String::new();
    let mut stderr = String::new();
    let mut line = String::new();
    loop {
        stdout.push_str("> ");
        line.clear();
        let read = reader.read_line(&mut line);
        let event = match &read {
            Ok(bytes) => ReplInput::Read { bytes: *bytes, text: &line },
            Err(_) => ReplInput::Failed,
        };
        match repl_step(event) {
            ReplAction::Exit => break,
            ReplAction::Print(lines) => {
                for printed in lines {
                    stdout.push_str(&printed);
                    stdout.push('\n');
                }
            }
            ReplAction::ReportScanError(error) => {
                stderr.push_str(&format!("Scan error: {:?}\n", error));
            }
            ReplAction::ReportReadError => {
                if let Err(error) = &read {
                    stderr.push_str(&format!("Read error: {:?}\n", error));
                }
            }
        }
    }
    (stdout, stderr)
}

#[test]
fn exits_when_stdin_is_empty() {
    assert!(matches!(
        repl_step(ReplInput::Read { bytes: 0, text: "" }),
        ReplAction::Exit
    ));
    let (stdout, stderr) = session(b"");
    assert_eq!(stdout, "> ");
    assert_eq!(stderr, "");
}

#[test]
fn exits_after_a_final_line_without_a_newline() {
    let line = "if (answer2 + 42) { else; }";
    match repl_step(ReplInput::Read { bytes: line.len(), text: line }) {
        ReplAction::Print(lines) => assert_eq!(lines.len(), 11),
        _ => panic!("a scannable line should be printed"),
    }
    let (stdout, stderr) = session(line.as_bytes());
    assert!(stdout.ends_with("   1 EOF\n> "));
    assert_eq!(stderr, "");
}

#[test]
fn run_propagates_scan_errors() {
    assert!(matches!(
        run("return @"),
        Err(ScanError::UnexpectedChar('@'))
    ));
    assert!(run("fn example() { return 42; }").is_ok());
}

#[test]
fn reports_scan_errors_and_processes_the_next_line() {
    let (stdout, stderr) = session(b"@\n42;");
    assert!(stderr.contains("Scan error: UnexpectedChar('@')"));
    assert!(!stdout.contains("Scan error:"));
    let number = stdout.find("NUM 42").expect("next line was not processed");
    assert!(stdout[number..].contains("SEMICOLON"));
    assert!(stdout[number..].contains("EOF"));
}

#[test]
fn blank_lines_do_not_end_the_repl() {
    let (stdout, _) = session(b"\n \t\n7\n");
    assert!(stdout.contains("NUM 7"));
}

#[test]
fn invalid_utf8_input_reports_an_io_error_and_processes_the_next_line() {
    let (stdout, stderr) = session(b"\xff\n42;");
    assert!(stderr.contains("Read error:"));
    assert!(stderr.contains("InvalidData"));
    assert!(!stdout.contains("Read error:"));
    let number = stdout.find("NUM 42").expect("next line was not processed");
    assert!(stdout[number..].contains("SEMICOLON"));
    assert!(stdout[number..].contains("EOF"));
}

#[test]
fn reports_unterminated_strings_and_scans_the_next_line() {
    let (stdout, stderr) = session(b"\"unfinished\n\"hello\";");
    assert!(stderr.contains("Scan error: UnterminatedString"));
    assert_eq!(
        stdout,
        "> >    1 STRING \"hello\"\n   1 SEMICOLON\n   1 EOF\n> "
    );
}

#[test]
fn read_errors_are_reported_and_the_repl_goes_on() {
    assert!(matches!(repl_step(ReplInput::Failed), ReplAction::ReportReadError));
}

#[test]
fn scan_errors_are_handed_back_by_the_step() {
    match repl_step(ReplInput::Read { bytes: 2, text: "\"x" }) {
        ReplAction::ReportScanError(ScanError::UnterminatedString) => {}
        _ => panic!("an unterminated string should be reported"),
    }
}

#[test]
fn listing_right_aligns_line_numbers_in_four_columns() {
    assert_eq!(listing(&Token::new(TokenType::Number, 7, "42")), "   7 NUM 42");
    assert_eq!(listing(&Token::new(TokenType::Eof, 12345, "")), "12345 EOF");
    assert_eq!(listing(&Token::new(TokenType::Dot, 1234, ".")), "1234 DOT");
}

#[test]
fn decimal_text_writes_numerals_without_leading_zeros() {
    assert_eq!(decimal_text(0), "0");
    assert_eq!(decimal_text(9), "9");
    assert_eq!(decimal_text(10), "10");
    assert_eq!(decimal_text(907), "907");
    assert_eq!(decimal_text(usize::MAX), usize::MAX.to_string());
}

#[test]
fn pad_left_text_pads_only_short_text() {
    assert_eq!(pad_left_text("ab", 4), "  ab");
    assert_eq!(pad_left_text("abcd", 4), "abcd");
    assert_eq!(pad_left_text("abcdef", 4), "abcdef");
    assert_eq!(pad_left_text("é", 3), "  é");
    assert_eq!(pad_left_text("", 0), "");
}

#[test]
fn run_lists_every_token_with_its_line() {
    let lines = run("let x = \"a\nb\";\n7").expect("source should scan");
    assert_eq!(
        lines,
        vec![
            "   1 LET",
            "   1 IDENT x",
            "   1 EQUAL",
            "   2 STRING \"a\nb\"",
            "   2 SEMICOLON",
            "   3 NUM 7",
            "   3 EOF",
        ]
    );
    let scanned = Scanner::new("7").scan().unwrap();
    assert_eq!(scanned.len(), 2);
}
