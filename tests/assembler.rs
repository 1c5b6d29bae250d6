use hackassembler::assembler::{Assembler, AssemblerError};
use hackassembler::instruction::{EncodeErrorKind, Expression, Instruction, InstructionError};
use hackassembler::parser::Parser;
use hackassembler::scanlines::tokenize;
use hackassembler::symbol_table::SymbolTable;
use hackassembler::token::{Token, TokenKind};

fn assemble(text: &str) -> Result<String, AssemblerError> {
    Assembler::new().assemble(text)
}

fn parse_error(text: &str) -> String {
    match assemble(text) {
        Err(AssemblerError::ParseError(e)) => e.description,
        other => panic!("expected a parse error, got {:?}", other),
    }
}

fn encode_error(text: &str) -> InstructionError {
    match assemble(text) {
        Err(AssemblerError::InstructionError(e)) => e,
        other => panic!("expected an encoding error, got {:?}", other),
    }
}

#[test]
fn assembling_twice_gives_identical_output() {
    let src = "@i\nM=1\n(LOOP)\n@i\nD=M\n@LOOP\nD;JGT\n";
    assert_eq!(assemble(src).unwrap(), assemble(src).unwrap());
}

#[test]
fn one_output_line_per_non_label_instruction() {
    let out = assemble("(START)\n@1\nD=A\n(END)\n@END\n0;JMP\n").unwrap();
    assert_eq!(out.lines().count(), 4);
    assert!(out.lines().all(|l| l.len() == 16 && l.chars().all(|c| c == '0' || c == '1')));
    assert!(out.ends_with('\n'));
}

#[test]
fn address_literals_up_to_sixteen_bits() {
    assert_eq!(assemble("@0\n").unwrap(), "0000000000000000\n");
    assert_eq!(assemble("@65535\n").unwrap(), "1111111111111111\n");
    assert_eq!(
        encode_error("@65536\n"),
        InstructionError { kind: EncodeErrorKind::AddressOutOfRange, line: 1 }
    );
}

#[test]
fn predefined_symbols() {
    assert_eq!(assemble("@SCREEN\n").unwrap(), "0100000000000000\n");
    assert_eq!(assemble("@KBD\n").unwrap(), "0110000000000000\n");
    assert_eq!(assemble("@R3\n").unwrap(), "0000000000000011\n");
    assert_eq!(assemble("@SP\n@LCL\n@R15\n").unwrap(), "0000000000000000\n0000000000000001\n0000000000001111\n");
}

#[test]
fn variables_are_allocated_from_sixteen() {
    assert_eq!(
        assemble("@foo\n@bar\n@foo\n").unwrap(),
        "0000000000010000\n0000000000010001\n0000000000010000\n"
    );
}

#[test]
fn forward_label_reference() {
    assert_eq!(assemble("@LOOP\n(LOOP)\n").unwrap(), "0000000000000001\n");
    assert_eq!(
        assemble("@LOOP\n(LOOP)\n0;JMP\n").unwrap(),
        "0000000000000001\n1110101010000111\n"
    );
}

#[test]
fn labels_are_not_variables() {
    assert_eq!(
        assemble("(A1)\n@x\n(B2)\n@A1\n@B2\n@y\n").unwrap(),
        "0000000000010000\n0000000000000000\n0000000000000001\n0000000000010001\n"
    );
}

#[test]
fn a_repeated_label_keeps_its_first_address() {
    assert_eq!(
        assemble("(X)\n@1\n(X)\n@X\n").unwrap(),
        "0000000000000001\n0000000000000000\n"
    );
}

#[test]
fn predefined_symbols_come_before_labels() {
    assert_eq!(assemble("@1\n(SP)\n@SP\n").unwrap(), "0000000000000001\n0000000000000000\n");
}

#[test]
fn comp_table_exactness() {
    assert_eq!(assemble("D+1\n").unwrap(), "1110011111000000\n");
    assert_eq!(assemble("0;JMP\n").unwrap(), "1110101010000111\n");
    assert_eq!(assemble("M=M+1\n").unwrap(), "1111110111001000\n");
}

#[test]
fn every_computation_encodes() {
    let cases = [
        ("0", "1110101010000000"),
        ("1", "1110111111000000"),
        ("-1", "1110111010000000"),
        ("D", "1110001100000000"),
        ("A", "1110110000000000"),
        ("M", "1111110000000000"),
        ("!D", "1110001101000000"),
        ("!A", "1110110001000000"),
        ("!M", "1111110001000000"),
        ("-D", "1110001111000000"),
        ("-A", "1110110011000000"),
        ("-M", "1111110011000000"),
        ("D+1", "1110011111000000"),
        ("A+1", "1110110111000000"),
        ("M+1", "1111110111000000"),
        ("D-1", "1110001110000000"),
        ("A-1", "1110110010000000"),
        ("M-1", "1111110010000000"),
        ("D+A", "1110000010000000"),
        ("D+M", "1111000010000000"),
        ("D-A", "1110010011000000"),
        ("D-M", "1111010011000000"),
        ("A-D", "1110000111000000"),
        ("M-D", "1111000111000000"),
        ("D&A", "1110000000000000"),
        ("D&M", "1111000000000000"),
        ("D|A", "1110010101000000"),
        ("D|M", "1111010101000000"),
    ];
    for (src, word) in cases.iter() {
        assert_eq!(assemble(&format!("{}\n", src)).unwrap(), format!("{}\n", word), "{}", src);
    }
}

#[test]
fn destinations_and_jumps_encode() {
    assert_eq!(assemble("AMD=0\n").unwrap(), "1110101010111000\n");
    assert_eq!(assemble("D=D-A\n").unwrap(), "1110010011010000\n");
    assert_eq!(assemble("A=M\n").unwrap(), "1111110000100000\n");
    assert_eq!(assemble("D;JGT\n").unwrap(), "1110001100000001\n");
    assert_eq!(assemble("D;JEQ\n").unwrap(), "1110001100000010\n");
    assert_eq!(assemble("D;JGE\n").unwrap(), "1110001100000011\n");
    assert_eq!(assemble("D;JLT\n").unwrap(), "1110001100000100\n");
    assert_eq!(assemble("D;JNE\n").unwrap(), "1110001100000101\n");
    assert_eq!(assemble("D;JLE\n").unwrap(), "1110001100000110\n");
    assert_eq!(assemble("M=D;JMP\n").unwrap(), "1110001100001111\n");
}

#[test]
fn destination_duplication_rejection() {
    assert_eq!(parse_error("DD=1\n"), "Duplicate destination");
    assert_eq!(parse_error("AMA=1\n"), "Duplicate destination");
}

#[test]
fn parse_errors() {
    assert_eq!(parse_error("=1\n"), "Missing destination l-value");
    assert_eq!(parse_error("D=\n"), "Unexpected expression");
    assert_eq!(parse_error("D=2\n"), "Unexpected expression");
    assert_eq!(parse_error("D;\n"), "Invalid jump code");
    assert_eq!(parse_error("@1 @2\n"), "A statement must end with a new line.");
}

#[test]
fn parse_error_names_the_token() {
    match assemble("@1\nDD=1\n") {
        Err(AssemblerError::ParseError(e)) => {
            assert_eq!(e.token, Token::new(TokenKind::Equal, 2));
        }
        other => panic!("unexpected {:?}", other),
    }
}

#[test]
fn invalid_computation_is_an_encoding_error() {
    assert_eq!(
        encode_error("@1\nD=A+D\n"),
        InstructionError { kind: EncodeErrorKind::InvalidComputation, line: 2 }
    );
    assert_eq!(encode_error("M&D\n").kind, EncodeErrorKind::InvalidComputation);
    assert_eq!(encode_error("!1\n").kind, EncodeErrorKind::InvalidComputation);
}

#[test]
fn scan_errors_stop_the_run() {
    match assemble("@1\n@2\n(3x)\n") {
        Err(AssemblerError::ScanError(e)) => assert_eq!(e.line, 3),
        other => panic!("unexpected {:?}", other),
    }
}

#[test]
fn empty_source_gives_empty_output() {
    assert_eq!(assemble("").unwrap(), "");
    assert_eq!(assemble("// nothing\n\n").unwrap(), "");
}

#[test]
fn last_line_without_newline() {
    assert_eq!(assemble("@7").unwrap(), "0000000000000111\n");
}

#[test]
fn parser_builds_instructions() {
    let tokens = tokenize("(L)\n@L\nAM=M+1;JNE\n").unwrap();
    let mut p = Parser::new(tokens);
    let prog = p.parse().unwrap();
    assert_eq!(prog.len(), 3);
    assert_eq!(prog[0].symbol_string(), Some("L"));
    assert_eq!(prog[1].symbol_string(), None);
    match &prog[2] {
        Instruction::CInstruction { dest, comp, jump } => {
            assert_eq!(dest.len(), 2);
            assert!(matches!(comp, Expression::Binary { .. }));
            assert_eq!(jump.as_ref().unwrap().kind, TokenKind::JumpNotEqual);
        }
        other => panic!("unexpected {:?}", other),
    }
}

#[test]
fn bare_register_is_a_computation_not_a_destination() {
    let tokens = tokenize("M\n").unwrap();
    let prog = Parser::new(tokens).parse().unwrap();
    match &prog[0] {
        Instruction::CInstruction { dest, comp, jump } => {
            assert!(dest.is_empty());
            assert!(matches!(comp, Expression::Literal(t) if t.kind == TokenKind::Memory));
            assert!(jump.is_none());
        }
        other => panic!("unexpected {:?}", other),
    }
}

#[test]
fn hand_built_instructions_with_bad_parts() {
    let mut symbols = SymbolTable::new();
    let bad_dest = Instruction::CInstruction {
        dest: vec![Token::new(TokenKind::Plus, 4)],
        comp: Expression::Literal(Token::new(TokenKind::Number(0), 4)),
        jump: None,
    };
    assert_eq!(
        bad_dest.binary(&mut symbols).unwrap_err(),
        InstructionError { kind: EncodeErrorKind::InvalidDestination, line: 4 }
    );
    let bad_jump = Instruction::CInstruction {
        dest: vec![],
        comp: Expression::Literal(Token::new(TokenKind::Number(0), 5)),
        jump: Some(Token::new(TokenKind::Semicolon, 5)),
    };
    assert_eq!(
        bad_jump.binary(&mut symbols).unwrap_err(),
        InstructionError { kind: EncodeErrorKind::InvalidJump, line: 5 }
    );
    let bad_operand = Instruction::AInstruction(Token::new(TokenKind::Equal, 6));
    assert_eq!(
        bad_operand.binary(&mut symbols).unwrap_err(),
        InstructionError { kind: EncodeErrorKind::InvalidOperand, line: 6 }
    );
    let label = Instruction::Label(Token::new(TokenKind::Label(String::from("X")), 1));
    assert_eq!(label.binary(&mut symbols).unwrap(), None);
    assert_eq!(label.binary_string(&mut symbols).unwrap(), None);
}

#[test]
fn binary_string_gives_sixteen_digits() {
    let mut symbols = SymbolTable::new();
    let a = Instruction::AInstruction(Token::new(TokenKind::Address(5), 1));
    assert_eq!(a.binary(&mut symbols).unwrap(), Some(5));
    assert_eq!(a.binary_string(&mut symbols).unwrap(), Some(String::from("0000000000000101")));
}
