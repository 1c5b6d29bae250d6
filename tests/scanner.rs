use hackassembler::scanlines::{tokenize, Scanlines};
use hackassembler::scanner::{ScanErrorKind, Scanner, ScannerError};
use hackassembler::token::{Token, TokenKind};

fn scan_all(line: &str) -> Vec<Result<Token, ScannerError>> {
    let mut s = Scanner::new(line, 7);
    let mut out = Vec::new();
    while let Some(t) = s.next() {
        out.push(t);
    }
    out
}

fn kinds(line: &str) -> Vec<TokenKind> {
    scan_all(line).into_iter().map(|t| t.unwrap().kind).collect()
}

#[test]
fn register_jump() {
    let mut s = Scanner::new("D;JNE\n\0", 0);
    let mut tokens = Vec::new();
    while let Some(token) = s.next() {
        tokens.push(token.unwrap());
    }
    assert_eq!(
        tokens,
        vec![
            Token::new(TokenKind::DRegister, 0),
            Token::new(TokenKind::Semicolon, 0),
            Token::new(TokenKind::JumpNotEqual, 0),
            Token::new(TokenKind::NewLine, 0)
        ]
    )
}

#[test]
fn scans_address_literal_and_symbol() {
    assert_eq!(kinds("@123\n"), vec![TokenKind::Address(123), TokenKind::NewLine]);
    assert_eq!(
        kinds("@foo.bar\n"),
        vec![TokenKind::Symbol(String::from("foo.bar")), TokenKind::NewLine]
    );
    assert_eq!(kinds("@+5"), vec![TokenKind::Address(5), TokenKind::NewLine]);
    assert_eq!(
        kinds("@99999999999"),
        vec![TokenKind::Symbol(String::from("99999999999")), TokenKind::NewLine]
    );
    assert_eq!(kinds("@4294967295"), vec![TokenKind::Address(4294967295), TokenKind::NewLine]);
}

#[test]
fn scans_label() {
    assert_eq!(
        kinds("(LOOP)\n"),
        vec![TokenKind::Label(String::from("LOOP")), TokenKind::NewLine]
    );
}

#[test]
fn scans_compute_instruction_with_comment() {
    assert_eq!(
        kinds("  AM=M-1 ; JGE // note\n"),
        vec![
            TokenKind::ARegister,
            TokenKind::Memory,
            TokenKind::Equal,
            TokenKind::Memory,
            TokenKind::Minus,
            TokenKind::Number(1),
            TokenKind::Semicolon,
            TokenKind::JumpGreaterThanEqual,
            TokenKind::NewLine
        ]
    );
}

#[test]
fn scans_every_jump_mnemonic() {
    assert_eq!(
        kinds("JGT JEQ JGE JLT JNE JLE JMP"),
        vec![
            TokenKind::JumpGreaterThan,
            TokenKind::JumpEqual,
            TokenKind::JumpGreaterThanEqual,
            TokenKind::JumpLessThan,
            TokenKind::JumpNotEqual,
            TokenKind::JumpLessThanEqual,
            TokenKind::Jump,
            TokenKind::NewLine
        ]
    );
}

#[test]
fn scans_operators_and_numbers() {
    assert_eq!(
        kinds("!-+&|0 17 99999999999"),
        vec![
            TokenKind::Not,
            TokenKind::Minus,
            TokenKind::Plus,
            TokenKind::And,
            TokenKind::Or,
            TokenKind::Number(0),
            TokenKind::Number(17),
            TokenKind::Number(u32::MAX),
            TokenKind::NewLine
        ]
    );
}

#[test]
fn blank_and_comment_lines_give_only_a_terminator() {
    assert_eq!(kinds(""), vec![TokenKind::NewLine]);
    assert_eq!(kinds("   \n"), vec![TokenKind::NewLine]);
    assert_eq!(kinds("// only a comment"), vec![TokenKind::NewLine]);
}

fn first_error(line: &str) -> ScannerError {
    let results = scan_all(line);
    let last = results.last().unwrap();
    assert_eq!(results.iter().filter(|r| r.is_err()).count(), 1);
    last.clone().unwrap_err()
}

#[test]
fn scan_errors_name_their_kind_and_line() {
    assert_eq!(
        first_error("D=A #"),
        ScannerError { kind: ScanErrorKind::UnexpectedCharacter, line: 7 }
    );
    assert_eq!(first_error("/x").kind, ScanErrorKind::UnexpectedSlash);
    assert_eq!(first_error("0;JXX").kind, ScanErrorKind::UnexpectedJump);
    assert_eq!(first_error("(LOOP\n").kind, ScanErrorKind::UnterminatedLabel);
    assert_eq!(first_error("(LO OP)").kind, ScanErrorKind::UnterminatedLabel);
    assert_eq!(first_error("(1A)").kind, ScanErrorKind::LabelStartsWithDigit);
    assert_eq!(ScanErrorKind::UnexpectedJump.description(), "Unexpected jump type");
}

#[test]
fn scanner_stops_after_an_error() {
    let results = scan_all("D # A");
    assert_eq!(results.len(), 2);
    assert!(results[1].is_err());
}

#[test]
fn scanlines_numbers_lines_from_one() {
    let mut sl = Scanlines::new("@1\n\nD\n");
    let mut count = 0;
    let mut lines = Vec::new();
    while let Some(mut sc) = sl.next() {
        count += 1;
        let t = sc.next().unwrap().unwrap();
        lines.push(t.line);
    }
    assert_eq!(count, 3);
    assert_eq!(lines, vec![1, 2, 3]);
}

#[test]
fn tokenize_drops_blank_lines_and_ends_with_eof() {
    let tokens = tokenize("// header\n@1\n\n   \nD=A\n\n").unwrap();
    assert_eq!(
        tokens,
        vec![
            Token::new(TokenKind::Address(1), 2),
            Token::new(TokenKind::NewLine, 2),
            Token::new(TokenKind::DRegister, 5),
            Token::new(TokenKind::Equal, 5),
            Token::new(TokenKind::ARegister, 5),
            Token::new(TokenKind::NewLine, 5),
            Token::new(TokenKind::EOF, 6)
        ]
    );
}

#[test]
fn tokenize_empty_text_gives_eof_on_line_one() {
    assert_eq!(tokenize("").unwrap(), vec![Token::new(TokenKind::EOF, 1)]);
}

#[test]
fn tokenize_reports_the_line_of_a_scan_error() {
    let err = tokenize("@1\nD=A\n  $\n").unwrap_err();
    assert_eq!(err, ScannerError { kind: ScanErrorKind::UnexpectedCharacter, line: 3 });
}
