//! The assembler pipeline: prepare the source, scan, parse, and generate the
//! ROM, stopping after the first stage that reports an error.

use crate::ast::{SpanStmt, Stmt};
use crate::bytes::copy_bytes;
use crate::codegen::{codegen, lemma_rom_size_prefix, rom_size, spec_codegen, CodegenError};
use crate::interpreter::PROGRAM_START;
use crate::diagnostics::Diagnostics;
use crate::parser::{made_by_rule, stmt_span, walk, Parser};
use crate::scanner::{scan_all, token_views, Scanner};
use crate::span::WithSpan;
use crate::tokens::TokenSpan;
use vstd::prelude::*;
use vstd::string::StringSliceAdditionalSpecFns;

verus! {

/// Why assembling stopped.
#[derive(Clone, Debug, PartialEq, Eq)]
pub enum AssembleError {
    /// The scanner reported errors.
    Tokenise,
    /// The parser reported errors.
    Parse,
    /// The program does not fit in the address space.
    ProgramTooLarge,
    /// Code generation failed on a statement.
    Codegen(WithSpan<CodegenError>),
}

/// The source with each tab replaced by four spaces.
pub open spec fn expand_tabs(src: Seq<u8>) -> Seq<u8>
    decreases src.len(),
{
    if src.len() == 0 {
        Seq::empty()
    } else if src.last() == 9u8 {
        expand_tabs(src.drop_last()) + seq![32u8, 32u8, 32u8, 32u8]
    } else {
        expand_tabs(src.drop_last()).push(src.last())
    }
}

/// Replace each tab by four spaces.
pub fn expand_tabs_exec(src: &[u8]) -> (r: Vec<u8>)
    ensures
        r@ == expand_tabs(src@),
{
    let mut r: Vec<u8> = Vec::new();
    let mut i: usize = 0;
    while i < src.len()
        invariant
            i <= src@.len(),
            r@ == expand_tabs(src@.subrange(0, i as int)),
        decreases src@.len() - i,
    {
        proof {
            assert(src@.subrange(0, i + 1).drop_last() =~= src@.subrange(0, i as int));
        }
        if src[i] == 9u8 {
            r.push(32u8);
            r.push(32u8);
            r.push(32u8);
            r.push(32u8);
            assert(r@ =~= expand_tabs(src@.subrange(0, i as int)) + seq![32u8, 32u8, 32u8, 32u8]);
        } else {
            r.push(src[i]);
        }
        i = i + 1;
    }
    assert(src@.subrange(0, src@.len() as int) =~= src@);
    r
}

/// Whether the ROM of the statements, loaded at `0x200`, ends within the
/// 16-bit address space.
pub fn fits_in_address_space(stmts: &Vec<SpanStmt>) -> (r: bool)
    ensures
        r == (PROGRAM_START as int + rom_size(stmts@) <= 0xFFFF),
{
    let mut total: usize = 0;
    let mut i: usize = 0;
    while i < stmts.len()
        invariant
            i <= stmts@.len(),
            total as int == rom_size(stmts@.take(i as int)),
            total <= 0xFFFF,
        decreases stmts@.len() - i,
    {
        proof {
            assert(stmts@.take(i + 1).drop_last() =~= stmts@.take(i as int));
            assert(stmts@.take(i + 1).last() == stmts@[i as int]);
        }
        let size: usize = match &stmts[i].value {
            Stmt::RawDataDefinition(data) => data.len(),
            Stmt::PseudoInstruction(_) => 2,
            _ => 0,
        };
        if size > 0xFFFF - total {
            proof { lemma_rom_size_prefix(stmts@, i + 1); }
            return false;
        }
        total = total + size;
        i = i + 1;
    }
    assert(stmts@.take(stmts@.len() as int) =~= stmts@);
    total + (PROGRAM_START as usize) <= 0xFFFF
}

/// The result of assembling parsed statements: a parse error if the walk over
/// the tokens had a failed statement, else an error if the ROM does not fit,
/// else the ROM that code generation makes of the statements, or its error.
pub open spec fn assembled(r: Result<Vec<u8>, AssembleError>, toks: Seq<TokenSpan>, stmts: Seq<SpanStmt>) -> bool {
    if walk(toks, 0).1 > 0 {
        r == Err::<Vec<u8>, AssembleError>(AssembleError::Parse)
    } else if PROGRAM_START as int + rom_size(stmts) > 0xFFFF {
        r == Err::<Vec<u8>, AssembleError>(AssembleError::ProgramTooLarge)
    } else {
        match spec_codegen(stmts) {
            Ok(bytes) => r is Ok && r->Ok_0@ == bytes,
            Err(e) => r is Err && r->Err_0 is Codegen && r->Err_0->Codegen_0.span == e.span
                && r->Err_0->Codegen_0.value@ == e.value,
        }
    }
}

/// Assemble a source text into the bytes of a ROM. Tabs count as four
/// spaces and letters are matched without regard to case. Scanning and
/// parsing report every error they find; the pipeline stops after a stage
/// that reported one. The diagnostics, over the source with tabs expanded,
/// are returned beside the result.
pub fn assemble(source: &str) -> (r: (Result<Vec<u8>, AssembleError>, Diagnostics))
    ensures
        r.1.source@ == expand_tabs(source.spec_bytes()),
        (r.0 == Err::<Vec<u8>, AssembleError>(AssembleError::Tokenise))
            <==> scan_all(expand_tabs(source.spec_bytes()), 0).1.len() > 0,
        scan_all(expand_tabs(source.spec_bytes()), 0).1.len() == 0 ==> exists|toks: Seq<TokenSpan>, stmts: Seq<SpanStmt>| {
            &&& token_views(toks) == scan_all(expand_tabs(source.spec_bytes()), 0).0
            &&& stmts.len() == walk(toks, 0).0.len()
            &&& forall|k: int| 0 <= k < stmts.len() ==> made_by_rule(#[trigger] stmts[k].value, toks, walk(toks, 0).0[k])
            &&& forall|k: int| 0 <= k < stmts.len() ==> (#[trigger] stmts[k].span) == stmt_span(toks, walk(toks, 0).0[k])
            &&& assembled(r.0, toks, stmts)
        },
        r.0 is Ok ==> !r.1.had_error,
        r.1.had_error ==> r.0 is Err,
{
    let expanded = expand_tabs_exec(source.as_bytes());
    let text = copy_bytes(&expanded);
    let mut diag = Diagnostics { source: expanded, reports: Vec::new(), had_error: false };
    let tokens = Scanner::scan_bytes(text, &mut diag);
    if diag.had_error {
        return (Err(AssembleError::Tokenise), diag);
    }
    let ghost toks = tokens@;
    let statements = Parser::parse(tokens, &mut diag);
    let ghost stmts = statements@;
    let result = if diag.had_error {
        Err(AssembleError::Parse)
    } else if !fits_in_address_space(&statements) {
        Err(AssembleError::ProgramTooLarge)
    } else {
        match codegen(statements, &mut diag) {
            Ok(rom) => Ok(rom),
            Err(e) => Err(AssembleError::Codegen(e)),
        }
    };
    assert(assembled(result, toks, stmts));
    (result, diag)
}

} // verus!
