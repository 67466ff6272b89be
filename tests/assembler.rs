use chip8_toolchain::assembler::{assemble, AssembleError};
use chip8_toolchain::ast::{AliasableThing, OrAlias, PseudoInstruction, Stmt};
use chip8_toolchain::codegen::{codegen, CodegenError};
use chip8_toolchain::diagnostics::{init_error_reporting, SeverityLevel};
use chip8_toolchain::instruction::EncodingError;
use chip8_toolchain::parser::Parser;
use chip8_toolchain::scanner::Scanner;
use chip8_toolchain::span::{Span, WithSpan};
use chip8_toolchain::tokens::{GeneralRegisterName, InstructionName, SpecialRegisterName, Token};

fn rom(source: &str) -> Vec<u8> {
    let (result, diag) = assemble(source);
    assert!(!diag.had_error, "unexpected diagnostics: {:?}", diag.reports);
    result.expect("assembly should succeed")
}

fn codegen_error(source: &str) -> CodegenError {
    match assemble(source).0 {
        Err(AssembleError::Codegen(e)) => e.value,
        other => panic!("expected a codegen error, got {:?}", other),
    }
}

#[test]
fn minimal_program() {
    assert_eq!(rom("cls\nret"), vec![0x00, 0xE0, 0x00, 0xEE]);
}

#[test]
fn alias_and_label_resolution() {
    let source = "define delta 5\nstart:\n    ld v0, delta\n    jmp start";
    assert_eq!(rom(source), vec![0x60, 0x05, 0x12, 0x00]);
}

#[test]
fn raw_words_are_big_endian() {
    assert_eq!(rom("dw #1234 #ABCD"), vec![0x12, 0x34, 0xAB, 0xCD]);
}

#[test]
fn text_literal_keeps_its_bytes() {
    assert_eq!(rom("text \"Hi\""), vec![0x48, 0x69]);
}

#[test]
fn comment_and_tabs() {
    let (result, diag) = assemble("\tcls ; clear\n\tret");
    assert_eq!(result, Ok(vec![0x00, 0xE0, 0x00, 0xEE]));
    assert!(diag.reports.is_empty());
    assert_eq!(rom("    cls ; clear\n    ret"), vec![0x00, 0xE0, 0x00, 0xEE]);
}

#[test]
fn empty_source_gives_empty_rom() {
    assert_eq!(rom(""), Vec::<u8>::new());
    assert_eq!(rom("  ; only a comment\n"), Vec::<u8>::new());
}

#[test]
fn rom_size_is_data_plus_two_per_instruction() {
    let bytes = rom("db 1 2 3\ncls\ntext \"abcd\"\nld v1, 7\nnop");
    assert_eq!(bytes.len(), 3 + 4 + 2 * 3);
    assert_eq!(bytes, vec![1, 2, 3, 0x00, 0xE0, b'a', b'b', b'c', b'd', 0x61, 0x07, 0x00, 0x00]);
}

#[test]
fn duplicate_label_after_alias_is_caught_at_the_label() {
    let (result, _) = assemble("define x 1\nx:\ncls");
    match result {
        Err(AssembleError::Codegen(e)) => {
            assert_eq!(e.value, CodegenError::LabelAlreadyDefined(b"x".to_vec()));
            assert_eq!(e.span, Span { start: 11, end: 12 });
        }
        other => panic!("unexpected {:?}", other),
    }
}

#[test]
fn duplicate_alias_after_label_is_caught_at_the_alias() {
    assert_eq!(codegen_error("x:\ndefine x 1"), CodegenError::AliasAlreadyDefined(b"x".to_vec()));
    assert_eq!(codegen_error("define y 1\ndefine y 2"), CodegenError::AliasAlreadyDefined(b"y".to_vec()));
}

#[test]
fn labels_count_raw_data_and_instructions() {
    assert_eq!(rom("db 1 2 3\ncls\nhere:\njmp here"), vec![1, 2, 3, 0x00, 0xE0, 0x12, 0x05]);
}

#[test]
fn aliases_are_case_insensitive() {
    assert_eq!(rom("DEFINE Reg VA\nLD reg, #FF"), vec![0x6A, 0xFF]);
}

#[test]
fn register_alias_selects_register_forms() {
    assert_eq!(rom("define r v3\nse v1, r\nadd v2, r\nadd v2, 4"), vec![0x51, 0x30, 0x82, 0x34, 0x72, 0x04]);
}

#[test]
fn codegen_error_variants() {
    assert_eq!(codegen_error("jmp nowhere"), CodegenError::AliasNotDefined(b"nowhere".to_vec()));
    assert_eq!(codegen_error("define n 3\nshr n"), CodegenError::AliasShouldBeRegister(b"n".to_vec()));
    assert_eq!(codegen_error("define r v1\njmp r"), CodegenError::AliasShouldBeNumber(b"r".to_vec()));
    assert_eq!(
        codegen_error("define big 300\nrnd v0, big"),
        CodegenError::AliasedLiteralTooBig(b"big".to_vec(), 300, 0xFF)
    );
    assert_eq!(
        codegen_error("define n 16\ndrw v0, v1, n"),
        CodegenError::AliasedLiteralTooBig(b"n".to_vec(), 16, 0xF)
    );
    assert_eq!(
        codegen_error("define far #1000\ncall far"),
        CodegenError::EncodingError(EncodingError::AddressTooBig(0x1000))
    );
}

#[test]
fn jump_plus_requires_v0() {
    let reg = |g| OrAlias::Concrete(g);
    let stmt = |pi| WithSpan { span: Span { start: 0, end: 3 }, value: Stmt::PseudoInstruction(pi) };
    let mut diag = init_error_reporting("jmpp");
    let ok = codegen(vec![stmt(PseudoInstruction::JmpPlus(reg(GeneralRegisterName::V0), OrAlias::Concrete(0x300)))], &mut diag);
    assert_eq!(ok, Ok(vec![0xB3, 0x00]));
    let bad = codegen(vec![stmt(PseudoInstruction::JmpPlus(reg(GeneralRegisterName::V2), OrAlias::Concrete(0x300)))], &mut diag);
    assert_eq!(bad.unwrap_err().value, CodegenError::JumpBaseNotV0(2));
}

#[test]
fn file_directive_is_warned_and_ignored() {
    let (result, diag) = assemble("include \"other.asm\"\ncls");
    assert_eq!(result, Ok(vec![0x00, 0xE0]));
    assert_eq!(diag.reports.len(), 1);
    assert_eq!(diag.reports[0].severity, SeverityLevel::Warning);
    assert!(!diag.had_error);
}

#[test]
fn scanner_errors_are_reported_and_scanning_goes_on() {
    let mut diag = init_error_reporting("cls $ ret \"open");
    let tokens = Scanner::scan_tokens("cls $ ret \"open", &mut diag);
    assert_eq!(tokens.len(), 2);
    assert_eq!(tokens[1].value, Token::InstructionName(InstructionName::Ret));
    assert_eq!(diag.reports.len(), 2);
    assert_eq!(diag.reports[0].span, Span { start: 4, end: 4 });
    assert_eq!(diag.reports[1].span, Span { start: 10, end: 14 });
    assert!(diag.had_error);
    assert_eq!(assemble("ld v0, 70000").0, Err(AssembleError::Tokenise));
}

#[test]
fn scanner_tokens_and_numbers() {
    let mut diag = init_error_reporting("");
    let tokens = Scanner::scan_tokens("lbl: ld i, %101 ,dt k 65535", &mut diag);
    let values: Vec<Token> = tokens.into_iter().map(|t| t.value).collect();
    assert_eq!(
        values,
        vec![
            Token::Identifier(b"lbl".to_vec()),
            Token::Colon,
            Token::InstructionName(InstructionName::Ld),
            Token::SpecialRegisterName(SpecialRegisterName::I),
            Token::NumericLiteral(5),
            Token::SpecialRegisterName(SpecialRegisterName::Dt),
            Token::SpecialRegisterName(SpecialRegisterName::K),
            Token::NumericLiteral(65535),
        ]
    );
    assert!(!diag.had_error);
}

#[test]
fn parser_recovers_after_an_error() {
    let mut diag = init_error_reporting("");
    let tokens = Scanner::scan_tokens("ld v0, 300\nnop\ncls\ndefine a v5", &mut diag);
    let statements = Parser::parse(tokens, &mut diag);
    assert_eq!(diag.reports.len(), 1);
    assert!(diag.had_error);
    let values: Vec<Stmt> = statements.into_iter().map(|s| s.value).collect();
    assert_eq!(
        values,
        vec![
            Stmt::PseudoInstruction(PseudoInstruction::Cls),
            Stmt::AliasDefinition(b"a".to_vec(), AliasableThing::Register(GeneralRegisterName::V5)),
        ]
    );
    assert_eq!(assemble("db 256").0, Err(AssembleError::Parse));
}

#[test]
fn load_forms() {
    assert_eq!(rom("ld i, #123\nld v1, k\nld v2, dt\nld v3, v4"), vec![0xA1, 0x23, 0xF1, 0x0A, 0xF2, 0x07, 0x83, 0x40]);
}

#[test]
fn or_alias_map_keeps_aliases() {
    let a: OrAlias<u8> = OrAlias::Alias(b"n".to_vec());
    assert_eq!(a.map(|x| x as u16 + 1), OrAlias::Alias(b"n".to_vec()));
    let c: OrAlias<u8> = OrAlias::Concrete(4);
    assert_eq!(c.map(|x| x as u16 + 1), OrAlias::Concrete(5));
}

#[test]
fn line_and_column_of_offsets() {
    let diag = init_error_reporting("cls\n  ret\nx");
    assert_eq!(diag.line_and_newline_offset(0), (1, 0));
    assert_eq!(diag.line_and_newline_offset(6), (2, 4));
    assert_eq!(diag.line_and_newline_offset(10), (3, 10));
}

#[test]
fn program_too_large_for_the_address_space() {
    let source = format!("text \"{}\"", "a".repeat(0xFFFF));
    assert_eq!(assemble(&source).0, Err(AssembleError::ProgramTooLarge));
}

#[test]
fn instructions_ending_the_file_parse() {
    assert_eq!(rom("ld v0, 5"), vec![0x60, 0x05]);
    assert_eq!(rom("se v0, 5"), vec![0x30, 0x05]);
    assert_eq!(rom("jmp #fff"), vec![0x1F, 0xFF]);
    assert_eq!(rom("drw v1, v2, 15"), vec![0xD1, 0x2F]);
    assert_eq!(assemble("jmp #1000").0, Err(AssembleError::Parse));
    assert_eq!(assemble("drw v1, v2, 16").0, Err(AssembleError::Parse));
}

#[test]
fn statement_spans_run_from_first_to_last_token() {
    let mut diag = init_error_reporting("");
    let tokens = Scanner::scan_tokens("ld v3, #12\ndb 1 2", &mut diag);
    let statements = Parser::parse(tokens, &mut diag);
    assert_eq!(statements[0].span, Span { start: 0, end: 9 });
    assert_eq!(statements[1].span, Span { start: 11, end: 16 });
}

#[test]
fn statement_span_covers_every_token_read() {
    let at = |start, end, value| WithSpan { span: Span { start, end }, value };
    let tokens = vec![at(0, 0, Token::Define), at(10, 10, Token::Identifier(b"x".to_vec())), at(2, 2, Token::NumericLiteral(5))];
    let mut diag = init_error_reporting("");
    let statements = Parser::parse(tokens, &mut diag);
    assert_eq!(statements.len(), 1);
    assert_eq!(statements[0].span, Span { start: 0, end: 10 });
    let tokens = vec![
        at(20, 21, Token::DefineBytes),
        at(30, 30, Token::NumericLiteral(1)),
        at(5, 6, Token::NumericLiteral(2)),
        at(25, 25, Token::NumericLiteral(3)),
    ];
    let statements = Parser::parse(tokens, &mut diag);
    assert_eq!(statements[0].span, Span { start: 5, end: 30 });
    assert!(diag.reports.is_empty());
}
