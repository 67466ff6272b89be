//! Diagnostics: the errors and warnings found while assembling, with the
//! source text they point into. Rendering them is left to the caller.

use crate::span::Span;
use vstd::string::StringSliceAdditionalSpecFns;
use vstd::prelude::*;

verus! {

/// The level of severity of a report.
#[derive(Clone, Copy, Debug, PartialEq, Eq, Structural)]
pub enum SeverityLevel {
    /// A fatal error.
    Error,
    /// A non-fatal warning.
    Warning,
}

/// One error or warning, with the span of source it is about.
#[derive(Clone, Debug, PartialEq, Eq)]
pub struct Report {
    pub severity: SeverityLevel,
    pub span: Span,
    pub message: String,
}

/// The source being assembled and the reports made on it so far.
pub struct Diagnostics {
    /// The source text, as bytes.
    pub source: Vec<u8>,
    /// The reports, in the order they were made.
    pub reports: Vec<Report>,
    /// Whether at least one error was reported.
    pub had_error: bool,
}

/// Start reporting on the given source code.
pub fn init_error_reporting(code: &str) -> (d: Diagnostics)
    ensures
        d.source@ == code.spec_bytes(),
        d.reports@.len() == 0,
        !d.had_error,
{
    let bytes = code.as_bytes();
    let mut source: Vec<u8> = Vec::new();
    let mut i: usize = 0;
    while i < bytes.len()
        invariant
            i <= bytes@.len(),
            source@ == bytes@.subrange(0, i as int),
        decreases bytes@.len() - i,
    {
        source.push(bytes[i]);
        i = i + 1;
        assert(source@ =~= bytes@.subrange(0, i as int));
    }
    assert(source@ =~= bytes@);
    Diagnostics { source, reports: Vec::new(), had_error: false }
}

/// Report an error, and remember that one was reported.
pub fn report_error(diag: &mut Diagnostics, span: Span, message: &str)
    ensures
        final(diag).reports@ == old(diag).reports@.push(
            Report { severity: SeverityLevel::Error, span, message: final(diag).reports@.last().message },
        ),
        final(diag).reports@.last().message@ == message@,
        final(diag).had_error,
        final(diag).source == old(diag).source,
{
    diag.reports.push(Report { severity: SeverityLevel::Error, span, message: message.to_owned() });
    diag.had_error = true;
}

/// Report a non-fatal warning.
pub fn report_warning(diag: &mut Diagnostics, span: Span, message: &str)
    ensures
        final(diag).reports@ == old(diag).reports@.push(
            Report { severity: SeverityLevel::Warning, span, message: final(diag).reports@.last().message },
        ),
        final(diag).reports@.last().message@ == message@,
        final(diag).had_error == old(diag).had_error,
        final(diag).source == old(diag).source,
{
    diag.reports.push(Report { severity: SeverityLevel::Warning, span, message: message.to_owned() });
}

/// The number of newlines among the first `off` bytes.
pub open spec fn newlines_before(src: Seq<u8>, off: int) -> int
    decreases off,
{
    if off <= 0 {
        0
    } else {
        newlines_before(src, off - 1) + if src[off - 1] == 10u8 { 1int } else { 0int }
    }
}

/// The offset at which the line holding offset `off` starts: just after the
/// last newline before `off`, or 0.
pub open spec fn line_start(src: Seq<u8>, off: int) -> int
    decreases off,
{
    if off <= 0 {
        0
    } else if src[off - 1] == 10u8 {
        off
    } else {
        line_start(src, off - 1)
    }
}

impl Diagnostics {
    /// The 1-based line of a byte offset, and the offset at which that line
    /// starts; the 1-based column is then `offset - start + 1`.
    pub fn line_and_newline_offset(&self, offset: usize) -> (r: (usize, usize))
        requires
            offset <= self.source@.len(),
            offset < usize::MAX,
        ensures
            r.0 == 1 + newlines_before(self.source@, offset as int),
            r.1 == line_start(self.source@, offset as int),
    {
        let mut line: usize = 1;
        let mut start: usize = 0;
        let mut i: usize = 0;
        while i < offset
            invariant
                i <= offset <= self.source@.len(),
                offset < usize::MAX,
                line == 1 + newlines_before(self.source@, i as int),
                start == line_start(self.source@, i as int),
                line <= i + 1,
            decreases offset - i,
        {
            if self.source[i] == 10u8 {
                line = line + 1;
                start = i + 1;
            }
            i = i + 1;
        }
        (line, start)
    }
}

} // verus!
