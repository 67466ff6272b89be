//! The scanner: source bytes to a list of spanned tokens.

use crate::bytes::{bytes_eq, copy_bytes};
use crate::diagnostics::{report_error, Diagnostics, SeverityLevel};
use crate::span::{Span, WithSpan};
use crate::tokens::{GeneralRegisterName, InstructionName, SpecialRegisterName, Token, TokenSpan, TokenView};
use vstd::prelude::*;
use vstd::string::StringSliceAdditionalSpecFns;

verus! {

/// Whether a byte is whitespace: space, or a tab, newline, vertical tab,
/// form feed or carriage return.
pub open spec fn is_space(b: u8) -> bool {
    b == 32 || (9 <= b <= 13)
}

/// Whether a byte is a decimal digit.
pub open spec fn is_dec(b: u8) -> bool {
    48 <= b <= 57
}

/// Whether a byte is a binary digit.
pub open spec fn is_bin(b: u8) -> bool {
    b == 48 || b == 49
}

/// Whether a byte is a (lowercase) hexadecimal digit.
pub open spec fn is_hex(b: u8) -> bool {
    is_dec(b) || (97 <= b <= 102)
}

/// Whether a byte is an ASCII letter.
pub open spec fn is_alpha(b: u8) -> bool {
    (65 <= b <= 90) || (97 <= b <= 122)
}

/// Whether a byte can continue an identifier.
pub open spec fn is_ident(b: u8) -> bool {
    is_alpha(b) || is_dec(b) || b == 95
}

/// The classes of bytes that a lexeme runs over.
pub enum Class {
    Dec,
    Bin,
    Hex,
    Ident,
    NotNewline,
    NotQuote,
}

/// Whether a byte is in a class.
pub open spec fn in_class(c: Class, b: u8) -> bool {
    match c {
        Class::Dec => is_dec(b),
        Class::Bin => is_bin(b),
        Class::Hex => is_hex(b),
        Class::Ident => is_ident(b),
        Class::NotNewline => b != 10,
        Class::NotQuote => b != 34,
    }
}

/// The first offset at or after `p` whose byte is not in the class, or the
/// end of the source.
pub open spec fn run_end(src: Seq<u8>, p: int, c: Class) -> int
    decreases src.len() - p,
{
    if p >= src.len() {
        if p > src.len() { p } else { src.len() as int }
    } else if in_class(c, src[p]) {
        run_end(src, p + 1, c)
    } else {
        p
    }
}

/// The value of a digit byte.
pub open spec fn digit_value(b: u8) -> int {
    if is_dec(b) {
        b - 48
    } else if 97 <= b <= 102 {
        b - 87
    } else {
        0
    }
}

/// Whether a byte is a digit of the radix (2, 10 or 16).
pub open spec fn is_digit_of(b: u8, radix: int) -> bool {
    if radix == 2 {
        is_bin(b)
    } else if radix == 10 {
        is_dec(b)
    } else {
        is_hex(b)
    }
}

/// The value of a sequence of digits in a radix.
pub open spec fn digits_value(d: Seq<u8>, radix: int) -> int
    decreases d.len(),
{
    if d.len() == 0 {
        0
    } else {
        digits_value(d.drop_last(), radix) * radix + digit_value(d.last())
    }
}

/// Whether a sequence of digits is a numeric literal that fits in 16 bits.
pub open spec fn number_ok(d: Seq<u8>, radix: int) -> bool {
    &&& d.len() > 0
    &&& forall|i: int| 0 <= i < d.len() ==> is_digit_of(#[trigger] d[i], radix)
    &&& digits_value(d, radix) <= 0xFFFF
}

/// The token that a word stands for: a keyword, or else an identifier.
pub open spec fn keyword_view(w: Seq<u8>) -> TokenView {
    if w == seq![110u8, 111u8, 112u8] {
        TokenView::InstructionName(InstructionName::Nop)
    } else if w == seq![99u8, 108u8, 115u8] {
        TokenView::InstructionName(InstructionName::Cls)
    } else if w == seq![114u8, 101u8, 116u8] {
        TokenView::InstructionName(InstructionName::Ret)
    } else if w == seq![106u8, 109u8, 112u8] {
        TokenView::InstructionName(InstructionName::Jmp)
    } else if w == seq![106u8, 112u8] {
        TokenView::InstructionName(InstructionName::Jmp)
    } else if w == seq![99u8, 97u8, 108u8, 108u8] {
        TokenView::InstructionName(InstructionName::Call)
    } else if w == seq![115u8, 101u8] {
        TokenView::InstructionName(InstructionName::Se)
    } else if w == seq![115u8, 110u8, 101u8] {
        TokenView::InstructionName(InstructionName::Sne)
    } else if w == seq![108u8, 100u8] {
        TokenView::InstructionName(InstructionName::Ld)
    } else if w == seq![97u8, 100u8, 100u8] {
        TokenView::InstructionName(InstructionName::Add)
    } else if w == seq![111u8, 114u8] {
        TokenView::InstructionName(InstructionName::Or)
    } else if w == seq![97u8, 110u8, 100u8] {
        TokenView::InstructionName(InstructionName::And)
    } else if w == seq![120u8, 111u8, 114u8] {
        TokenView::InstructionName(InstructionName::Xor)
    } else if w == seq![115u8, 117u8, 98u8] {
        TokenView::InstructionName(InstructionName::Sub)
    } else if w == seq![115u8, 117u8, 98u8, 110u8] {
        TokenView::InstructionName(InstructionName::Subn)
    } else if w == seq![115u8, 104u8, 114u8] {
        TokenView::InstructionName(InstructionName::Shr)
    } else if w == seq![115u8, 104u8, 108u8] {
        TokenView::InstructionName(InstructionName::Shl)
    } else if w == seq![114u8, 110u8, 100u8] {
        TokenView::InstructionName(InstructionName::Rnd)
    } else if w == seq![100u8, 114u8, 119u8] {
        TokenView::InstructionName(InstructionName::Drw)
    } else if w == seq![115u8, 107u8, 112u8] {
        TokenView::InstructionName(InstructionName::Skp)
    } else if w == seq![115u8, 107u8, 110u8, 112u8] {
        TokenView::InstructionName(InstructionName::Sknp)
    } else if w == seq![100u8, 101u8, 108u8, 97u8, 121u8] {
        TokenView::InstructionName(InstructionName::Delay)
    } else if w == seq![115u8, 111u8, 117u8, 110u8, 100u8] {
        TokenView::InstructionName(InstructionName::Sound)
    } else if w == seq![102u8, 111u8, 110u8, 116u8] {
        TokenView::InstructionName(InstructionName::Font)
    } else if w == seq![104u8, 101u8, 120u8] {
        TokenView::InstructionName(InstructionName::Font)
    } else if w == seq![98u8, 99u8, 100u8] {
        TokenView::InstructionName(InstructionName::Bcd)
    } else if w == seq![115u8, 116u8, 111u8, 114u8] {
        TokenView::InstructionName(InstructionName::Stor)
    } else if w == seq![114u8, 115u8, 116u8, 114u8] {
        TokenView::InstructionName(InstructionName::Rstr)
    } else if w == seq![118u8, 48u8] {
        TokenView::GeneralRegisterName(GeneralRegisterName::V0)
    } else if w == seq![118u8, 49u8] {
        TokenView::GeneralRegisterName(GeneralRegisterName::V1)
    } else if w == seq![118u8, 50u8] {
        TokenView::GeneralRegisterName(GeneralRegisterName::V2)
    } else if w == seq![118u8, 51u8] {
        TokenView::GeneralRegisterName(GeneralRegisterName::V3)
    } else if w == seq![118u8, 52u8] {
        TokenView::GeneralRegisterName(GeneralRegisterName::V4)
    } else if w == seq![118u8, 53u8] {
        TokenView::GeneralRegisterName(GeneralRegisterName::V5)
    } else if w == seq![118u8, 54u8] {
        TokenView::GeneralRegisterName(GeneralRegisterName::V6)
    } else if w == seq![118u8, 55u8] {
        TokenView::GeneralRegisterName(GeneralRegisterName::V7)
    } else if w == seq![118u8, 56u8] {
        TokenView::GeneralRegisterName(GeneralRegisterName::V8)
    } else if w == seq![118u8, 57u8] {
        TokenView::GeneralRegisterName(GeneralRegisterName::V9)
    } else if w == seq![118u8, 97u8] {
        TokenView::GeneralRegisterName(GeneralRegisterName::Va)
    } else if w == seq![118u8, 98u8] {
        TokenView::GeneralRegisterName(GeneralRegisterName::Vb)
    } else if w == seq![118u8, 99u8] {
        TokenView::GeneralRegisterName(GeneralRegisterName::Vc)
    } else if w == seq![118u8, 100u8] {
        TokenView::GeneralRegisterName(GeneralRegisterName::Vd)
    } else if w == seq![118u8, 101u8] {
        TokenView::GeneralRegisterName(GeneralRegisterName::Ve)
    } else if w == seq![118u8, 102u8] {
        TokenView::GeneralRegisterName(GeneralRegisterName::Vf)
    } else if w == seq![105u8] {
        TokenView::SpecialRegisterName(SpecialRegisterName::I)
    } else if w == seq![100u8, 116u8] {
        TokenView::SpecialRegisterName(SpecialRegisterName::Dt)
    } else if w == seq![107u8] {
        TokenView::SpecialRegisterName(SpecialRegisterName::K)
    } else if w == seq![100u8, 101u8, 102u8, 105u8, 110u8, 101u8] {
        TokenView::Define
    } else if w == seq![100u8, 98u8] {
        TokenView::DefineBytes
    } else if w == seq![100u8, 119u8] {
        TokenView::DefineWords
    } else if w == seq![116u8, 101u8, 120u8, 116u8] {
        TokenView::Text
    } else if w == seq![105u8, 110u8, 99u8, 108u8, 117u8, 100u8, 101u8] {
        TokenView::Include
    } else {
        TokenView::Identifier(w)
    }
}

/// The source with ASCII capitals turned into small letters.
pub open spec fn ascii_lowercase(src: Seq<u8>) -> Seq<u8> {
    src.map_values(|b: u8| if 65 <= b <= 90 { (b + 32) as u8 } else { b })
}

/// The lexeme that starts at offset `p`: the offset just past it, its token
/// if it makes one, and whether it is an error. Its span is `[p, next - 1]`.
/// Letters are matched without regard to case; the bytes of a string
/// literal are kept as they are.
pub open spec fn scan_step(raw: Seq<u8>, p: int) -> (int, Option<TokenView>, bool) {
    let src = ascii_lowercase(raw);
    let c = src[p];
    let len = src.len() as int;
    if c == 59 {
        (run_end(src, p + 1, Class::NotNewline), None, false)
    } else if c == 58 {
        (p + 1, Some(TokenView::Colon), false)
    } else if c == 44 || is_space(c) {
        (p + 1, None, false)
    } else if c == 34 {
        let q = run_end(src, p + 1, Class::NotQuote);
        if q >= len {
            (q, None, true)
        } else {
            (q + 1, Some(TokenView::StringLiteral(raw.subrange(p + 1, q))), false)
        }
    } else if is_dec(c) {
        let q = run_end(src, p + 1, Class::Dec);
        number_step(src.subrange(p, q), 10, q)
    } else if c == 37 || c == 35 {
        let radix: int = if c == 37 { 2 } else { 16 };
        let class = if c == 37 { Class::Bin } else { Class::Hex };
        let q = if p + 1 < len { run_end(src, p + 2, class) } else { p + 1 };
        number_step(src.subrange(p + 1, q), radix, q)
    } else if is_alpha(c) || c == 95 {
        let q = run_end(src, p + 1, Class::Ident);
        (q, Some(keyword_view(src.subrange(p, q))), false)
    } else {
        (p + 1, None, true)
    }
}

/// A numeric literal ending at `next`, or an error if it is not one.
pub open spec fn number_step(d: Seq<u8>, radix: int, next: int) -> (int, Option<TokenView>, bool) {
    if number_ok(d, radix) {
        (next, Some(TokenView::NumericLiteral(digits_value(d, radix) as u16)), false)
    } else {
        (next, None, true)
    }
}

/// The tokens, with spans, and the spans of the errors, of the source from
/// offset `p` on.
pub open spec fn scan_all(src: Seq<u8>, p: int) -> (Seq<(Span, TokenView)>, Seq<Span>)
    decreases src.len() - p,
{
    if p < 0 || p >= src.len() {
        (Seq::empty(), Seq::empty())
    } else {
        let (q, tok, err) = scan_step(src, p);
        if q <= p || q > src.len() {
            (Seq::empty(), Seq::empty())
        } else {
            let rest = scan_all(src, q);
            let span = Span { start: p as usize, end: (q - 1) as usize };
            (
                if tok is Some { seq![(span, tok->Some_0)] + rest.0 } else { rest.0 },
                if err { seq![span] + rest.1 } else { rest.1 },
            )
        }
    }
}

/// The views of spanned tokens.
pub open spec fn token_views(ts: Seq<TokenSpan>) -> Seq<(Span, TokenView)> {
    ts.map_values(|t: TokenSpan| (t.span, t.value@))
}

/// The token that a word stands for: a keyword, or else an identifier.
#[verifier::spinoff_prover]
#[verifier::rlimit(100)]
fn keyword_or_identifier(word: &Vec<u8>) -> (r: Token)
    ensures
        r@ == keyword_view(word@),
{
    if bytes_eq(word, &vec![110u8, 111u8, 112u8]) {
        return Token::InstructionName(InstructionName::Nop);
    }
    if bytes_eq(word, &vec![99u8, 108u8, 115u8]) {
        return Token::InstructionName(InstructionName::Cls);
    }
    if bytes_eq(word, &vec![114u8, 101u8, 116u8]) {
        return Token::InstructionName(InstructionName::Ret);
    }
    if bytes_eq(word, &vec![106u8, 109u8, 112u8]) {
        return Token::InstructionName(InstructionName::Jmp);
    }
    if bytes_eq(word, &vec![106u8, 112u8]) {
        return Token::InstructionName(InstructionName::Jmp);
    }
    if bytes_eq(word, &vec![99u8, 97u8, 108u8, 108u8]) {
        return Token::InstructionName(InstructionName::Call);
    }
    if bytes_eq(word, &vec![115u8, 101u8]) {
        return Token::InstructionName(InstructionName::Se);
    }
    if bytes_eq(word, &vec![115u8, 110u8, 101u8]) {
        return Token::InstructionName(InstructionName::Sne);
    }
    if bytes_eq(word, &vec![108u8, 100u8]) {
        return Token::InstructionName(InstructionName::Ld);
    }
    if bytes_eq(word, &vec![97u8, 100u8, 100u8]) {
        return Token::InstructionName(InstructionName::Add);
    }
    if bytes_eq(word, &vec![111u8, 114u8]) {
        return Token::InstructionName(InstructionName::Or);
    }
    if bytes_eq(word, &vec![97u8, 110u8, 100u8]) {
        return Token::InstructionName(InstructionName::And);
    }
    if bytes_eq(word, &vec![120u8, 111u8, 114u8]) {
        return Token::InstructionName(InstructionName::Xor);
    }
    if bytes_eq(word, &vec![115u8, 117u8, 98u8]) {
        return Token::InstructionName(InstructionName::Sub);
    }
    if bytes_eq(word, &vec![115u8, 117u8, 98u8, 110u8]) {
        return Token::InstructionName(InstructionName::Subn);
    }
    if bytes_eq(word, &vec![115u8, 104u8, 114u8]) {
        return Token::InstructionName(InstructionName::Shr);
    }
    if bytes_eq(word, &vec![115u8, 104u8, 108u8]) {
        return Token::InstructionName(InstructionName::Shl);
    }
    if bytes_eq(word, &vec![114u8, 110u8, 100u8]) {
        return Token::InstructionName(InstructionName::Rnd);
    }
    if bytes_eq(word, &vec![100u8, 114u8, 119u8]) {
        return Token::InstructionName(InstructionName::Drw);
    }
    if bytes_eq(word, &vec![115u8, 107u8, 112u8]) {
        return Token::InstructionName(InstructionName::Skp);
    }
    if bytes_eq(word, &vec![115u8, 107u8, 110u8, 112u8]) {
        return Token::InstructionName(InstructionName::Sknp);
    }
    if bytes_eq(word, &vec![100u8, 101u8, 108u8, 97u8, 121u8]) {
        return Token::InstructionName(InstructionName::Delay);
    }
    if bytes_eq(word, &vec![115u8, 111u8, 117u8, 110u8, 100u8]) {
        return Token::InstructionName(InstructionName::Sound);
    }
    if bytes_eq(word, &vec![102u8, 111u8, 110u8, 116u8]) {
        return Token::InstructionName(InstructionName::Font);
    }
    if bytes_eq(word, &vec![104u8, 101u8, 120u8]) {
        return Token::InstructionName(InstructionName::Font);
    }
    if bytes_eq(word, &vec![98u8, 99u8, 100u8]) {
        return Token::InstructionName(InstructionName::Bcd);
    }
    if bytes_eq(word, &vec![115u8, 116u8, 111u8, 114u8]) {
        return Token::InstructionName(InstructionName::Stor);
    }
    if bytes_eq(word, &vec![114u8, 115u8, 116u8, 114u8]) {
        return Token::InstructionName(InstructionName::Rstr);
    }
    if bytes_eq(word, &vec![118u8, 48u8]) {
        return Token::GeneralRegisterName(GeneralRegisterName::V0);
    }
    if bytes_eq(word, &vec![118u8, 49u8]) {
        return Token::GeneralRegisterName(GeneralRegisterName::V1);
    }
    if bytes_eq(word, &vec![118u8, 50u8]) {
        return Token::GeneralRegisterName(GeneralRegisterName::V2);
    }
    if bytes_eq(word, &vec![118u8, 51u8]) {
        return Token::GeneralRegisterName(GeneralRegisterName::V3);
    }
    if bytes_eq(word, &vec![118u8, 52u8]) {
        return Token::GeneralRegisterName(GeneralRegisterName::V4);
    }
    if bytes_eq(word, &vec![118u8, 53u8]) {
        return Token::GeneralRegisterName(GeneralRegisterName::V5);
    }
    if bytes_eq(word, &vec![118u8, 54u8]) {
        return Token::GeneralRegisterName(GeneralRegisterName::V6);
    }
    if bytes_eq(word, &vec![118u8, 55u8]) {
        return Token::GeneralRegisterName(GeneralRegisterName::V7);
    }
    if bytes_eq(word, &vec![118u8, 56u8]) {
        return Token::GeneralRegisterName(GeneralRegisterName::V8);
    }
    if bytes_eq(word, &vec![118u8, 57u8]) {
        return Token::GeneralRegisterName(GeneralRegisterName::V9);
    }
    if bytes_eq(word, &vec![118u8, 97u8]) {
        return Token::GeneralRegisterName(GeneralRegisterName::Va);
    }
    if bytes_eq(word, &vec![118u8, 98u8]) {
        return Token::GeneralRegisterName(GeneralRegisterName::Vb);
    }
    if bytes_eq(word, &vec![118u8, 99u8]) {
        return Token::GeneralRegisterName(GeneralRegisterName::Vc);
    }
    if bytes_eq(word, &vec![118u8, 100u8]) {
        return Token::GeneralRegisterName(GeneralRegisterName::Vd);
    }
    if bytes_eq(word, &vec![118u8, 101u8]) {
        return Token::GeneralRegisterName(GeneralRegisterName::Ve);
    }
    if bytes_eq(word, &vec![118u8, 102u8]) {
        return Token::GeneralRegisterName(GeneralRegisterName::Vf);
    }
    if word.len() == 1 && word[0] == 105u8 {
        assert(word@ =~= seq![105u8]);
        return Token::SpecialRegisterName(SpecialRegisterName::I);
    }
    if bytes_eq(word, &vec![100u8, 116u8]) {
        return Token::SpecialRegisterName(SpecialRegisterName::Dt);
    }
    if word.len() == 1 && word[0] == 107u8 {
        assert(word@ =~= seq![107u8]);
        return Token::SpecialRegisterName(SpecialRegisterName::K);
    }
    if bytes_eq(word, &vec![100u8, 101u8, 102u8, 105u8, 110u8, 101u8]) {
        return Token::Define;
    }
    if bytes_eq(word, &vec![100u8, 98u8]) {
        return Token::DefineBytes;
    }
    if bytes_eq(word, &vec![100u8, 119u8]) {
        return Token::DefineWords;
    }
    if bytes_eq(word, &vec![116u8, 101u8, 120u8, 116u8]) {
        return Token::Text;
    }
    if bytes_eq(word, &vec![105u8, 110u8, 99u8, 108u8, 117u8, 100u8, 101u8]) {
        return Token::Include;
    }
    Token::Identifier(copy_bytes(word))
}


/// A lexeme never ends before the offset it is looked for at, nor past the end.
proof fn lemma_run_end(src: Seq<u8>, p: int, c: Class)
    requires
        0 <= p <= src.len(),
    ensures
        p <= run_end(src, p, c) <= src.len(),
    decreases src.len() - p,
{
    if p < src.len() && in_class(c, src[p]) {
        lemma_run_end(src, p + 1, c);
    }
}

/// Every lexeme is at least one byte long, and ends within the source.
proof fn lemma_scan_step_advances(src: Seq<u8>, p: int)
    requires
        0 <= p < src.len(),
    ensures
        p < scan_step(src, p).0 <= src.len(),
{
    let lo = ascii_lowercase(src);
    assert(lo.len() == src.len());
    lemma_run_end(lo, p + 1, Class::NotNewline);
    lemma_run_end(lo, p + 1, Class::NotQuote);
    lemma_run_end(lo, p + 1, Class::Dec);
    lemma_run_end(lo, p + 1, Class::Ident);
    if p + 1 < src.len() {
        lemma_run_end(lo, p + 2, Class::Bin);
        lemma_run_end(lo, p + 2, Class::Hex);
    }
}

/// Whether a byte is in a class.
fn in_class_exec(c: &Class, b: u8) -> (r: bool)
    ensures
        r == in_class(*c, b),
{
    match c {
        Class::Dec => 48 <= b && b <= 57,
        Class::Bin => b == 48 || b == 49,
        Class::Hex => (48 <= b && b <= 57) || (97 <= b && b <= 102),
        Class::Ident => (65 <= b && b <= 90) || (97 <= b && b <= 122) || (48 <= b && b <= 57) || b == 95,
        Class::NotNewline => b != 10,
        Class::NotQuote => b != 34,
    }
}

/// The bytes of `src` from `from` up to `to`.
fn sub_bytes(src: &Vec<u8>, from: usize, to: usize) -> (r: Vec<u8>)
    requires
        from <= to <= src@.len(),
    ensures
        r@ == src@.subrange(from as int, to as int),
{
    let mut r: Vec<u8> = Vec::new();
    let mut i: usize = from;
    while i < to
        invariant
            from <= i <= to <= src@.len(),
            r@ == src@.subrange(from as int, i as int),
        decreases to - i,
    {
        r.push(src[i]);
        i = i + 1;
        assert(r@ =~= src@.subrange(from as int, i as int));
    }
    r
}

/// The value of the digits `src[from..to]` in the radix, if they are a
/// numeric literal that fits in 16 bits.
#[verifier::spinoff_prover]
#[verifier::rlimit(100)]
fn parse_number(src: &Vec<u8>, from: usize, to: usize, radix: u32) -> (r: Option<u16>)
    requires
        from <= to <= src@.len(),
        radix == 2 || radix == 10 || radix == 16,
    ensures
        r == (if number_ok(src@.subrange(from as int, to as int), radix as int) {
            Some(digits_value(src@.subrange(from as int, to as int), radix as int) as u16)
        } else {
            None::<u16>
        }),
{
    let ghost d = src@.subrange(from as int, to as int);
    let mut value: u32 = 0;
    let mut valid = true;
    let mut over = false;
    let mut i: usize = from;
    while i < to
        invariant
            from <= i <= to <= src@.len(),
            d == src@.subrange(from as int, to as int),
            radix == 2 || radix == 10 || radix == 16,
            valid == forall|k: int| 0 <= k < i - from ==> is_digit_of(#[trigger] d[k], radix as int),
            !over ==> value as int == digits_value(d.take(i - from), radix as int),
            over ==> digits_value(d.take(i - from), radix as int) > 0xFFFF,
            value <= 0xFFFF,
            digits_value(d.take(i - from), radix as int) >= 0,
        decreases to - i,
    {
        let b = src[i];
        let ghost k = i - from;
        proof {
            assert(d.take(k + 1).drop_last() =~= d.take(k));
            assert(d.take(k + 1).last() == b);
        }
        let digit: u32 = if 48 <= b && b <= 57 { (b - 48) as u32 } else if 97 <= b && b <= 102 { (b - 87) as u32 } else { 0 };
        let ok = if radix == 2 { b == 48 || b == 49 } else if radix == 10 { 48 <= b && b <= 57 } else { (48 <= b && b <= 57) || (97 <= b && b <= 102) };
        if !ok {
            valid = false;
        }
        let ghost prev = digits_value(d.take(k), radix as int);
        proof {
            assert(digits_value(d.take(k + 1), radix as int) == prev * radix + digit);
            assert(prev * radix >= prev) by (nonlinear_arith)
                requires prev >= 0, radix >= 2;
        }
        if !over {
            assert(value * radix <= 0xFFFF * 16) by (nonlinear_arith)
                requires value <= 0xFFFF, radix <= 16;
            let next = value * radix + digit;
            if next > 0xFFFF {
                over = true;
            } else {
                value = next;
            }
        }
        i = i + 1;
    }
    assert(d.take(to - from) =~= d);
    if valid && !over && to > from {
        Some(value as u16)
    } else {
        None
    }
}

/// A scanner to tokenise the source code.
pub struct Scanner {
    /// The source code, as bytes.
    raw: Vec<u8>,
    /// The source code with ASCII capitals turned into small letters.
    source: Vec<u8>,
    /// The tokens scanned so far.
    tokens: Vec<TokenSpan>,
    /// The offset of the start of the lexeme being scanned.
    start: usize,
    /// The offset of the byte being considered.
    current: usize,
}

/// The span `[p, q - 1]`.
pub open spec fn lexeme_span(p: int, q: int) -> Span {
    Span { start: p as usize, end: (q - 1) as usize }
}

/// The scanner went from one state to the next by scanning the lexeme at
/// `old.start`, adding its token and reporting its error.
spec fn lexed(old: Scanner, new: Scanner, od: Diagnostics, nd: Diagnostics) -> bool {
    let (q, tok, err) = scan_step(old.raw@, old.start as int);
    let span = lexeme_span(old.start as int, q);
    &&& new.source@ == old.source@
    &&& new.raw@ == old.raw@
    &&& new.start == old.start
    &&& new.current == q
    &&& token_views(new.tokens@) == token_views(old.tokens@) + (if tok is Some {
        seq![(span, tok->Some_0)]
    } else {
        Seq::empty()
    })
    &&& nd.reports@.len() == od.reports@.len() + (if err { 1int } else { 0int })
    &&& nd.reports@.subrange(0, od.reports@.len() as int) == od.reports@
    &&& (err ==> nd.reports@.last().span == span && nd.reports@.last().severity == SeverityLevel::Error)
    &&& nd.had_error == (od.had_error || err)
    &&& nd.source == od.source
}

impl Scanner {
    /// Are we at the end of the source code?
    fn is_at_end(&self) -> (r: bool)
        ensures
            r == (self.current >= self.source@.len()),
    {
        self.current >= self.source.len()
    }

    /// The span from the start of this lexeme to the byte most recently consumed.
    fn current_span(&self) -> (r: Span)
        requires
            self.current >= 1,
        ensures
            r == lexeme_span(self.start as int, self.current as int),
    {
        Span { start: self.start, end: self.current - 1 }
    }

    /// The byte at `current`, if any.
    fn current_char(&self) -> (r: Option<u8>)
        ensures
            r == (if self.current < self.source@.len() { Some(self.source@[self.current as int]) } else { None::<u8> }),
    {
        if self.current < self.source.len() {
            Some(self.source[self.current])
        } else {
            None
        }
    }

    /// Consume the byte at `current`.
    fn advance(&mut self) -> (r: u8)
        requires
            old(self).current < old(self).source@.len(),
        ensures
            r == old(self).source@[old(self).current as int],
            final(self).current == old(self).current + 1,
            final(self).source == old(self).source,
            final(self).raw == old(self).raw,
            final(self).tokens == old(self).tokens,
            final(self).start == old(self).start,
    {
        let c = self.source[self.current];
        let len = self.source.len();
        assert(self.current < len);
        self.current = self.current + 1;
        c
    }

    /// Consume bytes for as long as they are in the class.
    fn advance_while(&mut self, c: Class)
        requires
            old(self).current <= old(self).source@.len(),
        ensures
            final(self).current == run_end(old(self).source@, old(self).current as int, c),
            final(self).source == old(self).source,
            final(self).raw == old(self).raw,
            final(self).tokens == old(self).tokens,
            final(self).start == old(self).start,
    {
        while self.current < self.source.len() && in_class_exec(&c, self.source[self.current])
            invariant
                self.current <= self.source@.len(),
                run_end(self.source@, self.current as int, c) == run_end(old(self).source@, old(self).current as int, c),
                self.source == old(self).source,
                self.raw == old(self).raw,
                self.tokens == old(self).tokens,
                self.start == old(self).start,
            decreases self.source@.len() - self.current,
        {
            self.current = self.current + 1;
        }
    }

    /// Add a token with the span of the current lexeme.
    fn add_token(&mut self, token: Token)
        requires
            old(self).current >= 1,
        ensures
            token_views(final(self).tokens@) == token_views(old(self).tokens@) + seq![
                (lexeme_span(old(self).start as int, old(self).current as int), token@),
            ],
            final(self).source == old(self).source,
            final(self).raw == old(self).raw,
            final(self).start == old(self).start,
            final(self).current == old(self).current,
    {
        let span = self.current_span();
        self.tokens.push(WithSpan { span, value: token });
        assert(token_views(self.tokens@) =~= token_views(old(self).tokens@) + seq![(span, token@)]);
    }

    /// Report an error with the span of the current lexeme.
    fn report_error(&self, diag: &mut Diagnostics, message: &str)
        requires
            self.current >= 1,
        ensures
            final(diag).reports@.len() == old(diag).reports@.len() + 1,
            final(diag).reports@.subrange(0, old(diag).reports@.len() as int) == old(diag).reports@,
            final(diag).reports@.last().span == lexeme_span(self.start as int, self.current as int),
            final(diag).reports@.last().severity == SeverityLevel::Error,
            final(diag).had_error,
            final(diag).source == old(diag).source,
    {
        report_error(diag, self.current_span(), message);
        assert(diag.reports@.subrange(0, old(diag).reports@.len() as int) =~= old(diag).reports@);
    }

    /// Scan a string literal; its opening quote is consumed.
    fn scan_string(&mut self, diag: &mut Diagnostics)
        requires
            old(self).source@ == ascii_lowercase(old(self).raw@),
            old(self).start < old(self).source@.len(),
            old(self).current == old(self).start + 1,
            old(self).source@[old(self).start as int] == 34,
        ensures
            lexed(*old(self), *final(self), *old(diag), *final(diag)),
    {
        proof { lemma_run_end(self.source@, self.current as int, Class::NotQuote); }
        self.advance_while(Class::NotQuote);
        if self.is_at_end() {
            self.report_error(diag, "Unterminated string literal");
            assert(token_views(self.tokens@) =~= token_views(old(self).tokens@) + Seq::empty());
            return;
        }
        self.advance();
        let text = sub_bytes(&self.raw, self.start + 1, self.current - 1);
        self.add_token(Token::StringLiteral(text));
        assert(diag.reports@.subrange(0, old(diag).reports@.len() as int) =~= old(diag).reports@);
    }

    /// Add the numeric literal `source[from..current]` in the radix, or report
    /// an error if it is not one.
    fn finish_number(&mut self, diag: &mut Diagnostics, from: usize, radix: u32)
        requires
            old(self).current >= 1,
            from <= old(self).current <= old(self).source@.len(),
            radix == 2 || radix == 10 || radix == 16,
        ensures
            ({
                let (q, tok, err) = number_step(old(self).source@.subrange(from as int, old(self).current as int), radix as int, old(self).current as int);
                let span = lexeme_span(old(self).start as int, q);
                &&& final(self).source@ == old(self).source@
                &&& final(self).raw@ == old(self).raw@
                &&& final(self).start == old(self).start
                &&& final(self).current == q
                &&& token_views(final(self).tokens@) == token_views(old(self).tokens@) + (if tok is Some {
                    seq![(span, tok->Some_0)]
                } else {
                    Seq::empty()
                })
                &&& final(diag).reports@.len() == old(diag).reports@.len() + (if err { 1int } else { 0int })
                &&& final(diag).reports@.subrange(0, old(diag).reports@.len() as int) == old(diag).reports@
                &&& (err ==> final(diag).reports@.last().span == span && final(diag).reports@.last().severity == SeverityLevel::Error)
                &&& final(diag).had_error == (old(diag).had_error || err)
                &&& final(diag).source == old(diag).source
            }),
    {
        match parse_number(&self.source, from, self.current, radix) {
            Some(num) => {
                self.add_token(Token::NumericLiteral(num));
                assert(diag.reports@.subrange(0, old(diag).reports@.len() as int) =~= old(diag).reports@);
            },
            None => {
                self.report_error(diag, "Numeric literal larger than 16 bits");
                assert(token_views(self.tokens@) =~= token_views(old(self).tokens@) + Seq::empty());
            },
        }
    }

    /// Scan a base 10 numeric literal; its first digit is consumed.
    fn scan_decimal_number(&mut self, diag: &mut Diagnostics)
        requires
            old(self).source@ == ascii_lowercase(old(self).raw@),
            old(self).start < old(self).source@.len(),
            old(self).current == old(self).start + 1,
            is_dec(old(self).source@[old(self).start as int]),
        ensures
            lexed(*old(self), *final(self), *old(diag), *final(diag)),
    {
        proof { lemma_run_end(self.source@, self.current as int, Class::Dec); }
        self.advance_while(Class::Dec);
        let start = self.start;
        self.finish_number(diag, start, 10);
    }

    /// Scan a binary numeric literal; its `%` is consumed.
    fn scan_binary_number(&mut self, diag: &mut Diagnostics)
        requires
            old(self).source@ == ascii_lowercase(old(self).raw@),
            old(self).start < old(self).source@.len(),
            old(self).current == old(self).start + 1,
            old(self).source@[old(self).start as int] == 37,
        ensures
            lexed(*old(self), *final(self), *old(diag), *final(diag)),
    {
        if !self.is_at_end() {
            self.advance();
            proof { lemma_run_end(self.source@, self.current as int, Class::Bin); }
            self.advance_while(Class::Bin);
        }
        let start = self.start;
        self.finish_number(diag, start + 1, 2);
    }

    /// Scan a hexadecimal numeric literal; its `#` is consumed.
    fn scan_hex_number(&mut self, diag: &mut Diagnostics)
        requires
            old(self).source@ == ascii_lowercase(old(self).raw@),
            old(self).start < old(self).source@.len(),
            old(self).current == old(self).start + 1,
            old(self).source@[old(self).start as int] == 35,
        ensures
            lexed(*old(self), *final(self), *old(diag), *final(diag)),
    {
        if !self.is_at_end() {
            self.advance();
            proof { lemma_run_end(self.source@, self.current as int, Class::Hex); }
            self.advance_while(Class::Hex);
        }
        let start = self.start;
        self.finish_number(diag, start + 1, 16);
    }

    /// Scan an identifier or a keyword; its first letter is consumed.
    fn scan_identifier_or_keyword(&mut self, diag: &mut Diagnostics)
        requires
            old(self).source@ == ascii_lowercase(old(self).raw@),
            old(self).start < old(self).source@.len(),
            old(self).current == old(self).start + 1,
            is_alpha(old(self).source@[old(self).start as int]) || old(self).source@[old(self).start as int] == 95,
        ensures
            lexed(*old(self), *final(self), *old(diag), *final(diag)),
    {
        proof { lemma_run_end(self.source@, self.current as int, Class::Ident); }
        self.advance_while(Class::Ident);
        let word = sub_bytes(&self.source, self.start, self.current);
        let token = keyword_or_identifier(&word);
        self.add_token(token);
        assert(diag.reports@.subrange(0, old(diag).reports@.len() as int) =~= old(diag).reports@);
    }

    /// Scan a single lexeme starting at `start`.
    #[verifier::spinoff_prover]
    #[verifier::rlimit(100)]
    fn scan_token(&mut self, diag: &mut Diagnostics)
        requires
            old(self).source@ == ascii_lowercase(old(self).raw@),
            old(self).start < old(self).source@.len(),
            old(self).current == old(self).start,
        ensures
            lexed(*old(self), *final(self), *old(diag), *final(diag)),
    {
        let c = self.advance();
        if c == 59 {
            proof { lemma_run_end(self.source@, self.current as int, Class::NotNewline); }
            self.advance_while(Class::NotNewline);
            assert(token_views(self.tokens@) =~= token_views(old(self).tokens@) + Seq::empty());
            assert(diag.reports@.subrange(0, old(diag).reports@.len() as int) =~= old(diag).reports@);
        } else if c == 58 {
            self.add_token(Token::Colon);
            assert(diag.reports@.subrange(0, old(diag).reports@.len() as int) =~= old(diag).reports@);
        } else if c == 44 || c == 32 || (9 <= c && c <= 13) {
            assert(token_views(self.tokens@) =~= token_views(old(self).tokens@) + Seq::empty());
            assert(diag.reports@.subrange(0, old(diag).reports@.len() as int) =~= old(diag).reports@);
        } else if c == 34 {
            self.scan_string(diag);
        } else if 48 <= c && c <= 57 {
            self.scan_decimal_number(diag);
        } else if c == 37 {
            self.scan_binary_number(diag);
        } else if c == 35 {
            self.scan_hex_number(diag);
        } else if (65 <= c && c <= 90) || (97 <= c && c <= 122) || c == 95 {
            self.scan_identifier_or_keyword(diag);
        } else {
            self.report_error(diag, "Unrecognised character");
            assert(token_views(self.tokens@) =~= token_views(old(self).tokens@) + Seq::empty());
        }
    }

    /// Scan all the tokens of the given source code, reporting each lexical
    /// error and going on past it.
    pub fn scan_tokens(source: &str, diag: &mut Diagnostics) -> (r: Vec<TokenSpan>)
        ensures
            token_views(r@) == scan_all(source.spec_bytes(), 0).0,
            final(diag).reports@.len() == old(diag).reports@.len() + scan_all(source.spec_bytes(), 0).1.len(),
            final(diag).reports@.subrange(0, old(diag).reports@.len() as int) == old(diag).reports@,
            forall|k: int| 0 <= k < scan_all(source.spec_bytes(), 0).1.len() ==> {
                &&& (#[trigger] final(diag).reports@[old(diag).reports@.len() + k]).span == scan_all(source.spec_bytes(), 0).1[k]
                &&& final(diag).reports@[old(diag).reports@.len() + k].severity == SeverityLevel::Error
            },
            final(diag).had_error == (old(diag).had_error || scan_all(source.spec_bytes(), 0).1.len() > 0),
            final(diag).source == old(diag).source,
    {
        let bytes = source.as_bytes();
        let src = sub_bytes_slice(bytes);
        Self::scan_bytes(src, diag)
    }

    /// Scan all the tokens of the source bytes, reporting each lexical error
    /// and going on past it.
    #[verifier::spinoff_prover]
    #[verifier::rlimit(100)]
    pub fn scan_bytes(source: Vec<u8>, diag: &mut Diagnostics) -> (r: Vec<TokenSpan>)
        ensures
            token_views(r@) == scan_all(source@, 0).0,
            final(diag).reports@.len() == old(diag).reports@.len() + scan_all(source@, 0).1.len(),
            final(diag).reports@.subrange(0, old(diag).reports@.len() as int) == old(diag).reports@,
            forall|k: int| 0 <= k < scan_all(source@, 0).1.len() ==> {
                &&& (#[trigger] final(diag).reports@[old(diag).reports@.len() + k]).span == scan_all(source@, 0).1[k]
                &&& final(diag).reports@[old(diag).reports@.len() + k].severity == SeverityLevel::Error
            },
            final(diag).had_error == (old(diag).had_error || scan_all(source@, 0).1.len() > 0),
            final(diag).source == old(diag).source,
    {
        let ghost src = source@;
        let ghost base = old(diag).reports@;
        let lowered = ascii_lowercase_exec(&source);
        let mut scanner = Scanner { raw: source, source: lowered, tokens: Vec::new(), start: 0, current: 0 };
        let ghost mut errs: Seq<Span> = Seq::empty();
        assert(token_views(scanner.tokens@) =~= Seq::<(Span, TokenView)>::empty());
        while !scanner.is_at_end()
            invariant
                scanner.raw@ == src,
                scanner.source@ == ascii_lowercase(src),
                scanner.current <= src.len(),
                token_views(scanner.tokens@) + scan_all(src, scanner.current as int).0 == scan_all(src, 0).0,
                errs + scan_all(src, scanner.current as int).1 == scan_all(src, 0).1,
                diag.reports@.len() == base.len() + errs.len(),
                diag.reports@.subrange(0, base.len() as int) == base,
                forall|k: int| 0 <= k < errs.len() ==> {
                    &&& (#[trigger] diag.reports@[base.len() + k]).span == errs[k]
                    &&& diag.reports@[base.len() + k].severity == SeverityLevel::Error
                },
                diag.had_error == (old(diag).had_error || errs.len() > 0),
                diag.source == old(diag).source,
            decreases src.len() - scanner.current,
        {
            scanner.start = scanner.current;
            let ghost before = scanner;
            let ghost d0 = *diag;
            let ghost p = scanner.current as int;
            proof { lemma_scan_step_advances(src, p); }
            scanner.scan_token(diag);
            proof {
                let (q, tok, err) = scan_step(src, p);
                let span = lexeme_span(p, q);
                let rest = scan_all(src, q);
                assert(scan_all(src, p).0 == (if tok is Some { seq![(span, tok->Some_0)] + rest.0 } else { rest.0 }));
                assert(scan_all(src, p).1 == (if err { seq![span] + rest.1 } else { rest.1 }));
                if tok is Some {
                    assert(token_views(before.tokens@) + scan_all(src, p).0
                        =~= token_views(scanner.tokens@) + rest.0);
                } else {
                    assert(token_views(scanner.tokens@) =~= token_views(before.tokens@));
                }
                let old_errs = errs;
                if err {
                    errs = errs.push(span);
                    assert(old_errs + scan_all(src, p).1 =~= errs + rest.1);
                    assert(diag.reports@.subrange(0, base.len() as int) =~= d0.reports@.subrange(0, base.len() as int)) by {
                        assert(diag.reports@.subrange(0, d0.reports@.len() as int) == d0.reports@);
                    }
                    assert forall|k: int| 0 <= k < errs.len() implies {
                        &&& (#[trigger] diag.reports@[base.len() + k]).span == errs[k]
                        &&& diag.reports@[base.len() + k].severity == SeverityLevel::Error
                    } by {
                        if k < old_errs.len() {
                            assert(diag.reports@[base.len() + k] == diag.reports@.subrange(0, d0.reports@.len() as int)[base.len() + k]);
                        }
                    }
                } else {
                    assert(diag.reports@ =~= d0.reports@) by {
                        assert(diag.reports@.subrange(0, d0.reports@.len() as int) == d0.reports@);
                    }
                }
            }
        }
        proof {
            assert(scan_all(src, scanner.current as int).0 =~= Seq::<(Span, TokenView)>::empty());
            assert(token_views(scanner.tokens@) + Seq::<(Span, TokenView)>::empty() =~= token_views(scanner.tokens@));
            assert(errs + Seq::<Span>::empty() =~= errs);
        }
        scanner.tokens
    }
}

/// Turn ASCII capitals into small letters.
pub fn ascii_lowercase_exec(src: &Vec<u8>) -> (r: Vec<u8>)
    ensures
        r@ == ascii_lowercase(src@),
{
    let mut r: Vec<u8> = Vec::new();
    let mut i: usize = 0;
    while i < src.len()
        invariant
            i <= src@.len(),
            r@ == ascii_lowercase(src@.subrange(0, i as int)),
        decreases src@.len() - i,
    {
        let b = src[i];
        r.push(if 65 <= b && b <= 90 { b + 32 } else { b });
        i = i + 1;
        assert(r@ =~= ascii_lowercase(src@.subrange(0, i as int)));
    }
    assert(src@.subrange(0, src@.len() as int) =~= src@);
    r
}

/// A copy of a byte slice.
fn sub_bytes_slice(bytes: &[u8]) -> (r: Vec<u8>)
    ensures
        r@ == bytes@,
{
    let mut r: Vec<u8> = Vec::new();
    let mut i: usize = 0;
    while i < bytes.len()
        invariant
            i <= bytes@.len(),
            r@ == bytes@.subrange(0, i as int),
        decreases bytes@.len() - i,
    {
        r.push(bytes[i]);
        i = i + 1;
        assert(r@ =~= bytes@.subrange(0, i as int));
    }
    assert(r@ =~= bytes@);
    r
}

} // verus!
