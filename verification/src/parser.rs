//! The line grammar.  Every input line is classified as blank, directive
//! or source line by an ordered list of candidate shapes, evaluated
//! left to right exactly as the spec-level model functions describe;
//! the executable parser is proved to return precisely what the model
//! says on every proper line.
use vstd::prelude::*;

use crate::error::AsmError;
use crate::error::SpecAsmError;
use crate::lexing::BYTE_COLON;
use crate::lexing::BYTE_COMMA;
use crate::lexing::BYTE_DOT;
use crate::lexing::BYTE_NEWLINE;
use crate::lexing::BYTE_QUOTE;
use crate::lexing::BYTE_SEMICOLON;
use crate::lexing::alpha_end;
use crate::lexing::copy_range;
use crate::lexing::digit_end;
use crate::lexing::digits_val;
use crate::lexing::find_byte;
use crate::lexing::is_label_start;
use crate::lexing::is_space;
use crate::lexing::label_cont_end;
use crate::lexing::label_cont_char;
use crate::lexing::label_start_char;
use crate::lexing::lemma_digit_end;
use crate::lexing::parse_u64;
use crate::lexing::scan_alpha;
use crate::lexing::scan_digits;
use crate::lexing::scan_for_byte;
use crate::lexing::scan_label_cont;
use crate::lexing::skip_space;
use crate::lexing::space_char;
use crate::lexing::space_end;
use crate::lexing::trim_bytes;
use crate::lexing::trimmed;

verus! {

broadcast use vstd::slice::group_slice_axioms;

// ---------------------------------------------------------------
// data model
// ---------------------------------------------------------------

/// The 16 general-purpose 64-bit registers.
#[derive(Debug, PartialEq, Eq, Clone, Copy, Structural)]
#[allow(missing_docs)]
pub enum Register {
    RAX,
    RBX,
    RCX,
    RDX,
    RBP,
    RSP,
    RSI,
    RDI,
    R8,
    R9,
    R10,
    R11,
    R12,
    R13,
    R14,
    R15,
}

/// The sequence view of an optional byte vector.
pub open spec fn view_obytes(o: Option<Vec<u8>>) -> Option<Seq<u8>> {
    match o {
        Some(v) => Some(v@),
        None => None,
    }
}

/// Spec-level model of [`Operand`], with the symbol name as a sequence.
pub ghost enum SpecOperand {
    Register(Register),
    RegisterPair(Register, Register),
    RegisterImmediate(Register, u64),
    RegisterSymbol(Register, Seq<u8>),
}

/// The operand attached to an instruction.
#[derive(Debug, PartialEq, Eq, Clone)]
pub enum Operand {
    /// A bare register.
    Register(Register),
    /// `register , register`.
    RegisterPair(Register, Register),
    /// `register , decimal-integer`.
    RegisterImmediate(Register, u64),
    /// `register , label`; the symbol must resolve by the end of pass 2.
    RegisterSymbol(Register, Vec<u8>),
}

impl View for Operand {
    type V = SpecOperand;

    open spec fn view(&self) -> SpecOperand {
        match self {
            Operand::Register(r) => SpecOperand::Register(*r),
            Operand::RegisterPair(a, b) => SpecOperand::RegisterPair(*a, *b),
            Operand::RegisterImmediate(r, v) => SpecOperand::RegisterImmediate(*r, *v),
            Operand::RegisterSymbol(r, s) => SpecOperand::RegisterSymbol(*r, s@),
        }
    }
}

impl DeepView for Operand {
    type V = SpecOperand;

    open spec fn deep_view(&self) -> SpecOperand {
        self.view()
    }
}

/// Spec-level model of [`Source`].
pub ghost struct SpecSource {
    pub label: Option<Seq<u8>>,
    pub instruction: Option<Seq<u8>>,
    pub operand: Option<SpecOperand>,
    pub comment: Option<Seq<u8>>,
}

/// A decomposed source line: optional label, instruction, operand and
/// comment.  An operand is only ever present together with an
/// instruction, and a line with none of label/instruction/comment is
/// rejected rather than represented.
#[derive(Debug, PartialEq, Eq, Clone)]
pub struct Source {
    /// The label, with its optional trailing `:` stripped.
    pub label: Option<Vec<u8>>,
    /// The mnemonic, exactly as spelled in the source.
    pub instruction: Option<Vec<u8>>,
    /// The decoded operand, when the instruction carries one.
    pub operand: Option<Operand>,
    /// The comment text after `;`, trimmed of surrounding whitespace.
    pub comment: Option<Vec<u8>>,
}

impl View for Source {
    type V = SpecSource;

    open spec fn view(&self) -> SpecSource {
        SpecSource {
            label: view_obytes(self.label),
            instruction: view_obytes(self.instruction),
            operand: self.operand.deep_view(),
            comment: view_obytes(self.comment),
        }
    }
}

impl DeepView for Source {
    type V = SpecSource;

    open spec fn deep_view(&self) -> SpecSource {
        self.view()
    }
}

impl Source {
    /// Assemble a source line from raw token bytes, as the grammar
    /// does: the comment is trimmed of surrounding whitespace.
    pub fn new(
        label: Option<&[u8]>,
        instruction: Option<&[u8]>,
        operands: Option<Operand>,
        comment: Option<&[u8]>,
    ) -> (r: Source)
        ensures
            r@.label == match label {
                Some(l) => Some(l@),
                None => None::<Seq<u8>>,
            },
            r@.instruction == match instruction {
                Some(m) => Some(m@),
                None => None::<Seq<u8>>,
            },
            r@.operand == operands.deep_view(),
            r@.comment == match comment {
                Some(c) => Some(trimmed(c@)),
                None => None::<Seq<u8>>,
            },
    {
        Source {
            label: match label {
                Some(l) => Some(vstd::slice::slice_to_vec(l)),
                None => None,
            },
            instruction: match instruction {
                Some(m) => Some(vstd::slice::slice_to_vec(m)),
                None => None,
            },
            operand: operands,
            comment: match comment {
                Some(c) => Some(trim_bytes(c)),
                None => None,
            },
        }
    }
}

/// Spec-level model of [`Directive`].
pub ghost enum SpecDirective {
    Section(Seq<u8>),
    Global(Seq<u8>),
    Data(Seq<u8>, Option<Seq<u8>>),
}

/// An assembler directive.
#[derive(Debug, PartialEq, Eq, Clone)]
pub enum Directive {
    /// `section <name>`; recorded as metadata, emits no bytes.
    Section(Vec<u8>),
    /// `global <symbol>`; recorded as metadata, emits no bytes.
    Global(Vec<u8>),
    /// `<label> db "<bytes>"`; the literal bytes and the optional label
    /// bound to their start address.
    Data(Vec<u8>, Option<Vec<u8>>),
}

impl View for Directive {
    type V = SpecDirective;

    open spec fn view(&self) -> SpecDirective {
        match self {
            Directive::Section(s) => SpecDirective::Section(s@),
            Directive::Global(s) => SpecDirective::Global(s@),
            Directive::Data(d, l) => SpecDirective::Data(d@, view_obytes(*l)),
        }
    }
}

impl DeepView for Directive {
    type V = SpecDirective;

    open spec fn deep_view(&self) -> SpecDirective {
        self.view()
    }
}

/// Spec-level model of [`Line`].
pub ghost enum SpecLine {
    Source(SpecSource),
    Directive(SpecDirective),
    Blank,
}

/// One classified input line.
#[derive(Debug, PartialEq, Eq, Clone)]
pub enum Line {
    /// A source line: label, instruction, operand, comment.
    Source(Source),
    /// A directive line.
    Directive(Directive),
    /// Only whitespace before the line terminator.
    Blank,
}

impl View for Line {
    type V = SpecLine;

    open spec fn view(&self) -> SpecLine {
        match self {
            Line::Source(s) => SpecLine::Source(s@),
            Line::Directive(d) => SpecLine::Directive(d@),
            Line::Blank => SpecLine::Blank,
        }
    }
}

impl DeepView for Line {
    type V = SpecLine;

    open spec fn deep_view(&self) -> SpecLine {
        self.view()
    }
}

// ---------------------------------------------------------------
// the input contract
// ---------------------------------------------------------------

/// The grammar's input contract: exactly one line terminator, at the
/// very end.  The input supplier appends it to each line it hands over.
pub open spec fn proper_line(s: Seq<u8>) -> bool {
    &&& s.len() >= 1
    &&& s[s.len() - 1] == BYTE_NEWLINE
    &&& forall|k: int| 0 <= k < s.len() - 1 ==> s[k] != BYTE_NEWLINE
}

// ---------------------------------------------------------------
// tags and tokens
// ---------------------------------------------------------------

/// Two given bytes stand at `i`.
pub open spec fn tag2_at(s: Seq<u8>, i: int, a: u8, b: u8) -> bool {
    0 <= i && i + 2 <= s.len() && s[i] == a && s[i + 1] == b
}

/// Three given bytes stand at `i`.
pub open spec fn tag3_at(s: Seq<u8>, i: int, a: u8, b: u8, c: u8) -> bool {
    0 <= i && i + 3 <= s.len() && s[i] == a && s[i + 1] == b && s[i + 2] == c
}

fn tag2(s: &[u8], i: usize, a: u8, b: u8) -> (r: bool)
    requires
        i <= s@.len(),
    ensures
        r == tag2_at(s@, i as int, a, b),
{
    s.len() - i >= 2 && s[i] == a && s[i + 1] == b
}

fn tag3(s: &[u8], i: usize, a: u8, b: u8, c: u8) -> (r: bool)
    requires
        i <= s@.len(),
    ensures
        r == tag3_at(s@, i as int, a, b, c),
{
    s.len() - i >= 3 && s[i] == a && s[i + 1] == b && s[i + 2] == c
}

/// The register spellings, matched as tags in a fixed order; they are
/// mutually prefix-free, so at most one can match at a position.
pub open spec fn reg_token(s: Seq<u8>, i: int) -> Option<(Register, int)> {
    if tag3_at(s, i, 114, 97, 120) {  // rax
        Some((Register::RAX, i + 3))
    } else if tag3_at(s, i, 114, 98, 120) {  // rbx
        Some((Register::RBX, i + 3))
    } else if tag3_at(s, i, 114, 99, 120) {  // rcx
        Some((Register::RCX, i + 3))
    } else if tag3_at(s, i, 114, 100, 120) {  // rdx
        Some((Register::RDX, i + 3))
    } else if tag3_at(s, i, 114, 98, 112) {  // rbp
        Some((Register::RBP, i + 3))
    } else if tag3_at(s, i, 114, 115, 112) {  // rsp
        Some((Register::RSP, i + 3))
    } else if tag3_at(s, i, 114, 115, 105) {  // rsi
        Some((Register::RSI, i + 3))
    } else if tag3_at(s, i, 114, 100, 105) {  // rdi
        Some((Register::RDI, i + 3))
    } else if tag2_at(s, i, 114, 56) {  // r8
        Some((Register::R8, i + 2))
    } else if tag2_at(s, i, 114, 57) {  // r9
        Some((Register::R9, i + 2))
    } else if tag3_at(s, i, 114, 49, 48) {  // r10
        Some((Register::R10, i + 3))
    } else if tag3_at(s, i, 114, 49, 49) {  // r11
        Some((Register::R11, i + 3))
    } else if tag3_at(s, i, 114, 49, 50) {  // r12
        Some((Register::R12, i + 3))
    } else if tag3_at(s, i, 114, 49, 51) {  // r13
        Some((Register::R13, i + 3))
    } else if tag3_at(s, i, 114, 49, 52) {  // r14
        Some((Register::R14, i + 3))
    } else if tag3_at(s, i, 114, 49, 53) {  // r15
        Some((Register::R15, i + 3))
    } else {
        None
    }
}

fn try_register(s: &[u8], i: usize) -> (r: Option<(Register, usize)>)
    requires
        i <= s@.len(),
    ensures
        match r {
            Some((reg, e)) => reg_token(s@, i as int) == Some((reg, e as int)) && i < e <= s@.len(),
            None => reg_token(s@, i as int) is None,
        },
{
    if i >= s.len() {
        return None;
    }
    if tag3(s, i, 114, 97, 120) {
        Some((Register::RAX, i + 3))
    } else if tag3(s, i, 114, 98, 120) {
        Some((Register::RBX, i + 3))
    } else if tag3(s, i, 114, 99, 120) {
        Some((Register::RCX, i + 3))
    } else if tag3(s, i, 114, 100, 120) {
        Some((Register::RDX, i + 3))
    } else if tag3(s, i, 114, 98, 112) {
        Some((Register::RBP, i + 3))
    } else if tag3(s, i, 114, 115, 112) {
        Some((Register::RSP, i + 3))
    } else if tag3(s, i, 114, 115, 105) {
        Some((Register::RSI, i + 3))
    } else if tag3(s, i, 114, 100, 105) {
        Some((Register::RDI, i + 3))
    } else if tag2(s, i, 114, 56) {
        Some((Register::R8, i + 2))
    } else if tag2(s, i, 114, 57) {
        Some((Register::R9, i + 2))
    } else if tag3(s, i, 114, 49, 48) {
        Some((Register::R10, i + 3))
    } else if tag3(s, i, 114, 49, 49) {
        Some((Register::R11, i + 3))
    } else if tag3(s, i, 114, 49, 50) {
        Some((Register::R12, i + 3))
    } else if tag3(s, i, 114, 49, 51) {
        Some((Register::R13, i + 3))
    } else if tag3(s, i, 114, 49, 52) {
        Some((Register::R14, i + 3))
    } else if tag3(s, i, 114, 49, 53) {
        Some((Register::R15, i + 3))
    } else {
        None
    }
}

impl Register {
    /// The register a spelling denotes.  The bytes must be exactly one
    /// of the 16 spellings; anything else is a malformed register,
    /// which the grammar reports as a syntax error at the enclosing
    /// line rather than ever calling this.
    pub fn from_bytes(x: &[u8]) -> (r: Register)
        requires
            reg_token(x@, 0) matches Some((reg, p)) && p == x@.len(),
        ensures
            reg_token(x@, 0) == Some((r, x@.len() as int)),
    {
        match try_register(x, 0) {
            Some((r, _)) => r,
            None => vstd::pervasive::unreached(),
        }
    }
}

/// `mov` stands at `i`.
pub open spec fn kw_mov_at(s: Seq<u8>, i: int) -> bool {
    tag3_at(s, i, 109, 111, 118)
}

/// `syscall` stands at `i`.
pub open spec fn kw_syscall_at(s: Seq<u8>, i: int) -> bool {
    &&& 0 <= i && i + 7 <= s.len()
    &&& s[i] == 115 && s[i + 1] == 121 && s[i + 2] == 115 && s[i + 3] == 99
    &&& s[i + 4] == 97 && s[i + 5] == 108 && s[i + 6] == 108
}

/// `section` stands at `i`.
pub open spec fn kw_section_at(s: Seq<u8>, i: int) -> bool {
    &&& 0 <= i && i + 7 <= s.len()
    &&& s[i] == 115 && s[i + 1] == 101 && s[i + 2] == 99 && s[i + 3] == 116
    &&& s[i + 4] == 105 && s[i + 5] == 111 && s[i + 6] == 110
}

/// `global` stands at `i`.
pub open spec fn kw_global_at(s: Seq<u8>, i: int) -> bool {
    &&& 0 <= i && i + 6 <= s.len()
    &&& s[i] == 103 && s[i + 1] == 108 && s[i + 2] == 111 && s[i + 3] == 98
    &&& s[i + 4] == 97 && s[i + 5] == 108
}

/// `db` stands at `i`.
pub open spec fn kw_db_at(s: Seq<u8>, i: int) -> bool {
    tag2_at(s, i, 100, 98)
}

fn match_mov(s: &[u8], i: usize) -> (r: bool)
    requires
        i <= s@.len(),
    ensures
        r == kw_mov_at(s@, i as int),
{
    tag3(s, i, 109, 111, 118)
}

fn match_syscall(s: &[u8], i: usize) -> (r: bool)
    requires
        i <= s@.len(),
    ensures
        r == kw_syscall_at(s@, i as int),
{
    s.len() - i >= 7 && s[i] == 115 && s[i + 1] == 121 && s[i + 2] == 115 && s[i + 3] == 99
        && s[i + 4] == 97 && s[i + 5] == 108 && s[i + 6] == 108
}

fn match_section(s: &[u8], i: usize) -> (r: bool)
    requires
        i <= s@.len(),
    ensures
        r == kw_section_at(s@, i as int),
{
    s.len() - i >= 7 && s[i] == 115 && s[i + 1] == 101 && s[i + 2] == 99 && s[i + 3] == 116
        && s[i + 4] == 105 && s[i + 5] == 111 && s[i + 6] == 110
}

fn match_global(s: &[u8], i: usize) -> (r: bool)
    requires
        i <= s@.len(),
    ensures
        r == kw_global_at(s@, i as int),
{
    s.len() - i >= 6 && s[i] == 103 && s[i + 1] == 108 && s[i + 2] == 111 && s[i + 3] == 98
        && s[i + 4] == 97 && s[i + 5] == 108
}

fn match_db(s: &[u8], i: usize) -> (r: bool)
    requires
        i <= s@.len(),
    ensures
        r == kw_db_at(s@, i as int),
{
    tag2(s, i, 100, 98)
}

/// The bytes of `mov`.
pub open spec fn spec_mov_name() -> Seq<u8> {
    seq![109u8, 111u8, 118u8]
}

/// The bytes of `syscall`.
pub open spec fn spec_syscall_name() -> Seq<u8> {
    seq![115u8, 121u8, 115u8, 99u8, 97u8, 108u8, 108u8]
}

/// The mnemonic token: exact match against the supported spellings,
/// `mov` tried before `syscall`.
pub open spec fn instr_token(s: Seq<u8>, i: int) -> Option<(Seq<u8>, int)> {
    if kw_mov_at(s, i) {
        Some((s.subrange(i, i + 3), i + 3))
    } else if kw_syscall_at(s, i) {
        Some((s.subrange(i, i + 7), i + 7))
    } else {
        None
    }
}

fn try_instr(s: &[u8], i: usize) -> (r: Option<(Vec<u8>, usize)>)
    requires
        i <= s@.len(),
    ensures
        match r {
            Some((name, e)) => instr_token(s@, i as int) == Some((name@, e as int)) && i < e
                <= s@.len(),
            None => instr_token(s@, i as int) is None,
        },
{
    if i >= s.len() {
        return None;
    }
    if match_mov(s, i) {
        Some((copy_range(s, i, i + 3), i + 3))
    } else if match_syscall(s, i) {
        Some((copy_range(s, i, i + 7), i + 7))
    } else {
        None
    }
}

/// The label token: one identifier-start character, a run of
/// continuation characters, and an optional trailing `:` consumed and
/// discarded.
pub open spec fn label_token(s: Seq<u8>, i: int) -> Option<(Seq<u8>, int)> {
    if 0 <= i < s.len() && is_label_start(s[i]) {
        let e = label_cont_end(s, i + 1);
        let name = s.subrange(i, e);
        if e < s.len() && s[e] == BYTE_COLON {
            Some((name, e + 1))
        } else {
            Some((name, e))
        }
    } else {
        None
    }
}

fn try_label(s: &[u8], i: usize) -> (r: Option<(Vec<u8>, usize)>)
    requires
        i <= s@.len(),
    ensures
        match r {
            Some((name, e)) => label_token(s@, i as int) == Some((name@, e as int)) && i < e
                <= s@.len(),
            None => label_token(s@, i as int) is None,
        },
{
    if i < s.len() && label_start_char(s[i]) {
        let e = scan_label_cont(s, i + 1);
        let name = copy_range(s, i, e);
        if e < s.len() && s[e] == BYTE_COLON {
            Some((name, e + 1))
        } else {
            Some((name, e))
        }
    } else {
        None
    }
}

// ---------------------------------------------------------------
// operand grammar
// ---------------------------------------------------------------

/// Consume `space? , space?` after a first register; the position after
/// the optional whitespace that follows the comma, if a comma is there.
pub open spec fn after_comma(s: Seq<u8>, p: int) -> Option<int> {
    let a = space_end(s, p);
    if 0 <= a < s.len() && s[a] == BYTE_COMMA {
        Some(space_end(s, a + 1))
    } else {
        None
    }
}

/// The operand alternatives, first success wins: register pair, then
/// register + immediate, then register + symbol, then bare register.
/// The shared `register , ` prefix is factored out; that is equivalent
/// because the alternatives re-read it deterministically.
pub open spec fn operand_token(s: Seq<u8>, i: int) -> Option<(SpecOperand, int)> {
    match reg_token(s, i) {
        None => None,
        Some((r0, p)) => match after_comma(s, p) {
            None => Some((SpecOperand::Register(r0), p)),
            Some(b) => match reg_token(s, b) {
                Some((r1, e)) => Some((SpecOperand::RegisterPair(r0, r1), e)),
                None => {
                    let d = digit_end(s, b);
                    if d > b {
                        if digits_val(s.subrange(b, d)) <= u64::MAX {
                            Some(
                                (
                                    SpecOperand::RegisterImmediate(
                                        r0,
                                        digits_val(s.subrange(b, d)) as u64,
                                    ),
                                    d,
                                ),
                            )
                        } else {
                            // The integer overflows 64 bits, and a label
                            // cannot open with a digit, so only the bare
                            // register alternative is left.
                            Some((SpecOperand::Register(r0), p))
                        }
                    } else {
                        match label_token(s, b) {
                            Some((name, e)) => Some((SpecOperand::RegisterSymbol(r0, name), e)),
                            None => Some((SpecOperand::Register(r0), p)),
                        }
                    }
                },
            },
        },
    }
}

fn try_operand(s: &[u8], i: usize) -> (r: Option<(Operand, usize)>)
    requires
        i <= s@.len(),
    ensures
        match r {
            Some((o, e)) => operand_token(s@, i as int) == Some((o@, e as int)) && i < e
                <= s@.len(),
            None => operand_token(s@, i as int) is None,
        },
{
    match try_register(s, i) {
        None => None,
        Some((r0, p)) => {
            let a = skip_space(s, p);
            if a < s.len() && s[a] == BYTE_COMMA {
                let b = skip_space(s, a + 1);
                match try_register(s, b) {
                    Some((r1, e)) => Some((Operand::RegisterPair(r0, r1), e)),
                    None => {
                        let d = scan_digits(s, b);
                        if d > b {
                            proof {
                                lemma_digit_end(s@, b as int);
                            }
                            match parse_u64(s, b, d) {
                                Some(v) => Some((Operand::RegisterImmediate(r0, v), d)),
                                None => Some((Operand::Register(r0), p)),
                            }
                        } else {
                            match try_label(s, b) {
                                Some((name, e)) => Some((Operand::RegisterSymbol(r0, name), e)),
                                None => Some((Operand::Register(r0), p)),
                            }
                        }
                    },
                }
            } else {
                Some((Operand::Register(r0), p))
            }
        },
    }
}

// ---------------------------------------------------------------
// source-line grammar
// ---------------------------------------------------------------

/// A comment opens at `i`: a `;` strictly before the line terminator.
pub open spec fn comment_at(s: Seq<u8>, i: int) -> bool {
    0 <= i < s.len() - 1 && s[i] == BYTE_SEMICOLON
}

/// The comment text that a comment at `i` yields: everything after the
/// `;` up to the line terminator, trimmed of surrounding whitespace.
pub open spec fn comment_text(s: Seq<u8>, i: int) -> Seq<u8> {
    trimmed(s.subrange(i + 1, s.len() - 1))
}

/// Shared tail of the source shapes whose comment is optional: optional
/// whitespace, an optional comment, then the line terminator.
pub open spec fn src_tail(
    s: Seq<u8>,
    label: Option<Seq<u8>>,
    instr: Option<Seq<u8>>,
    op: Option<SpecOperand>,
    k: int,
) -> Option<SpecSource> {
    let k2 = space_end(s, k);
    if comment_at(s, k2) {
        Some(
            SpecSource {
                label: label,
                instruction: instr,
                operand: op,
                comment: Some(comment_text(s, k2)),
            },
        )
    } else if k2 == s.len() - 1 {
        Some(SpecSource { label: label, instruction: instr, operand: op, comment: None })
    } else {
        None
    }
}

/// Comment-only shape: whitespace, a comment, the line terminator.
pub open spec fn src_comment_only(s: Seq<u8>) -> Option<SpecSource> {
    let i = space_end(s, 0);
    if comment_at(s, i) {
        Some(
            SpecSource {
                label: None,
                instruction: None,
                operand: None,
                comment: Some(comment_text(s, i)),
            },
        )
    } else {
        None
    }
}

/// Instruction shape: whitespace, a mnemonic, an optional operand, an
/// optional comment.
pub open spec fn src_instruction_line(s: Seq<u8>) -> Option<SpecSource> {
    let i = space_end(s, 0);
    match instr_token(s, i) {
        None => None,
        Some((name, j)) => {
            let k0 = space_end(s, j);
            match operand_token(s, k0) {
                Some((op, k1)) => src_tail(s, None, Some(name), Some(op), k1),
                None => src_tail(s, None, Some(name), None, k0),
            }
        },
    }
}

/// Label-only shape: whitespace, a label, an optional comment.
pub open spec fn src_label_line(s: Seq<u8>) -> Option<SpecSource> {
    let i = space_end(s, 0);
    match label_token(s, i) {
        None => None,
        Some((name, j)) => src_tail(s, Some(name), None, None, j),
    }
}

/// Label+instruction shape: whitespace, a label, a mnemonic, an
/// optional operand, an optional comment.
pub open spec fn src_label_instr_line(s: Seq<u8>) -> Option<SpecSource> {
    let i = space_end(s, 0);
    match label_token(s, i) {
        None => None,
        Some((name, j)) => {
            let j2 = space_end(s, j);
            match instr_token(s, j2) {
                None => None,
                Some((iname, k)) => {
                    let k0 = space_end(s, k);
                    match operand_token(s, k0) {
                        Some((op, k1)) => src_tail(s, Some(name), Some(iname), Some(op), k1),
                        None => src_tail(s, Some(name), Some(iname), None, k0),
                    }
                },
            }
        },
    }
}

/// The source-line grammar: the four shapes tried in order.  The order
/// matters: a label followed only by whitespace or a comment must not be
/// mistaken for a failed instruction match, so the label-only shape is
/// tried before the combined one.
pub open spec fn parse_source_spec(s: Seq<u8>) -> Option<SpecSource> {
    if src_comment_only(s) is Some {
        src_comment_only(s)
    } else if src_instruction_line(s) is Some {
        src_instruction_line(s)
    } else if src_label_line(s) is Some {
        src_label_line(s)
    } else {
        src_label_instr_line(s)
    }
}

/// Copy the comment text opening at `i` out of the line.
fn read_comment(s: &[u8], i: usize) -> (r: Vec<u8>)
    requires
        proper_line(s@),
        comment_at(s@, i as int),
    ensures
        r@ == comment_text(s@, i as int),
{
    let n = s.len();
    let sub = vstd::slice::slice_subrange(s, i + 1, n - 1);
    trim_bytes(sub)
}

/// Shared executable tail of the source shapes: optional whitespace,
/// an optional comment, then the line terminator.
fn source_tail(
    s: &[u8],
    k: usize,
    label: Option<Vec<u8>>,
    instr: Option<Vec<u8>>,
    op: Option<Operand>,
) -> (r: Option<Source>)
    requires
        proper_line(s@),
        k <= s@.len(),
    ensures
        r.deep_view() == src_tail(
            s@,
            view_obytes(label),
            view_obytes(instr),
            op.deep_view(),
            k as int,
        ),
{
    let k2 = skip_space(s, k);
    if k2 < s.len() - 1 && s[k2] == BYTE_SEMICOLON {
        let c = read_comment(s, k2);
        Some(Source { label: label, instruction: instr, operand: op, comment: Some(c) })
    } else if k2 == s.len() - 1 {
        Some(Source { label: label, instruction: instr, operand: op, comment: None })
    } else {
        None
    }
}

/// The comment-only shape.
fn line_comment(s: &[u8]) -> (r: Option<Source>)
    requires
        proper_line(s@),
    ensures
        r.deep_view() == src_comment_only(s@),
{
    let i = skip_space(s, 0);
    if i < s.len() - 1 && s[i] == BYTE_SEMICOLON {
        let c = read_comment(s, i);
        Some(Source { label: None, instruction: None, operand: None, comment: Some(c) })
    } else {
        None
    }
}

/// The instruction shape.
fn line_instruction_operands(s: &[u8]) -> (r: Option<Source>)
    requires
        proper_line(s@),
    ensures
        r.deep_view() == src_instruction_line(s@),
{
    let i = skip_space(s, 0);
    match try_instr(s, i) {
        None => None,
        Some((name, j)) => {
            let k0 = skip_space(s, j);
            match try_operand(s, k0) {
                Some((op, k1)) => source_tail(s, k1, None, Some(name), Some(op)),
                None => source_tail(s, k0, None, Some(name), None),
            }
        },
    }
}

/// The label-only shape.
fn line_label(s: &[u8]) -> (r: Option<Source>)
    requires
        proper_line(s@),
    ensures
        r.deep_view() == src_label_line(s@),
{
    let i = skip_space(s, 0);
    match try_label(s, i) {
        None => None,
        Some((name, j)) => source_tail(s, j, Some(name), None, None),
    }
}

/// The label+instruction shape.
fn line_label_instruction_operands(s: &[u8]) -> (r: Option<Source>)
    requires
        proper_line(s@),
    ensures
        r.deep_view() == src_label_instr_line(s@),
{
    let i = skip_space(s, 0);
    match try_label(s, i) {
        None => None,
        Some((name, j)) => {
            let j2 = skip_space(s, j);
            match try_instr(s, j2) {
                None => None,
                Some((iname, k)) => {
                    let k0 = skip_space(s, k);
                    match try_operand(s, k0) {
                        Some((op, k1)) => source_tail(s, k1, Some(name), Some(iname), Some(op)),
                        None => source_tail(s, k0, Some(name), Some(iname), None),
                    }
                },
            }
        },
    }
}

/// Parse a source line: the four shapes tried in order, first success
/// wins.  Returns exactly what the grammar model yields.
pub fn source(s: &[u8]) -> (r: Option<Source>)
    requires
        proper_line(s@),
    ensures
        r.deep_view() == parse_source_spec(s@),
{
    if let Some(src) = line_comment(s) {
        return Some(src);
    }
    if let Some(src) = line_instruction_operands(s) {
        return Some(src);
    }
    if let Some(src) = line_label(s) {
        return Some(src);
    }
    line_label_instruction_operands(s)
}

// ---------------------------------------------------------------
// directive grammar
// ---------------------------------------------------------------

/// `section` directive shape: whitespace, the keyword, whitespace, a
/// section name (an optional leading `.`, then one or more letters),
/// the terminator.
pub open spec fn dir_section(s: Seq<u8>) -> Option<SpecDirective> {
    let i = space_end(s, 0);
    if kw_section_at(s, i) {
        let j = i + 7;
        if j < s.len() && is_space(s[j]) {
            let j2 = space_end(s, j);
            let base = if j2 < s.len() && s[j2] == BYTE_DOT {
                j2 + 1
            } else {
                j2
            };
            let e = alpha_end(s, base);
            let name = s.subrange(j2, e);
            if e > base && space_end(s, e) == s.len() - 1 {
                Some(SpecDirective::Section(name))
            } else {
                None
            }
        } else {
            None
        }
    } else {
        None
    }
}

/// `global` directive shape: whitespace, the keyword, whitespace, a
/// label, the terminator.
pub open spec fn dir_global(s: Seq<u8>) -> Option<SpecDirective> {
    let i = space_end(s, 0);
    if kw_global_at(s, i) {
        let j = i + 6;
        if j < s.len() && is_space(s[j]) {
            let j2 = space_end(s, j);
            match label_token(s, j2) {
                None => None,
                Some((name, j3)) => {
                    if space_end(s, j3) == s.len() - 1 {
                        Some(SpecDirective::Global(name))
                    } else {
                        None
                    }
                },
            }
        } else {
            None
        }
    } else {
        None
    }
}

/// `db` directive shape: whitespace, an optional label (committed once
/// matched), whitespace, the keyword, whitespace, a double-quoted
/// literal, the terminator.
pub open spec fn dir_data(s: Seq<u8>) -> Option<SpecDirective> {
    let i = space_end(s, 0);
    let lab = label_token(s, i);
    let j = match lab {
        Some((name, p)) => p,
        None => i,
    };
    if j < s.len() && is_space(s[j]) {
        let j2 = space_end(s, j);
        if kw_db_at(s, j2) {
            let k = j2 + 2;
            if k < s.len() && is_space(s[k]) {
                let k2 = space_end(s, k);
                if k2 < s.len() && s[k2] == BYTE_QUOTE {
                    match find_byte(s, k2 + 1, BYTE_QUOTE) {
                        None => None,
                        Some(q) => {
                            let content = s.subrange(k2 + 1, q);
                            if space_end(s, q + 1) == s.len() - 1 {
                                Some(
                                    SpecDirective::Data(
                                        content,
                                        match lab {
                                            Some((name, p)) => Some(name),
                                            None => None,
                                        },
                                    ),
                                )
                            } else {
                                None
                            }
                        },
                    }
                } else {
                    None
                }
            } else {
                None
            }
        } else {
            None
        }
    } else {
        None
    }
}

/// The directive grammar: the three keyword-disjoint shapes.
pub open spec fn parse_directive_spec(s: Seq<u8>) -> Option<SpecDirective> {
    if dir_section(s) is Some {
        dir_section(s)
    } else if dir_global(s) is Some {
        dir_global(s)
    } else {
        dir_data(s)
    }
}

fn directive_section(s: &[u8]) -> (r: Option<Directive>)
    requires
        proper_line(s@),
    ensures
        r.deep_view() == dir_section(s@),
{
    let n = s.len();
    let i = skip_space(s, 0);
    if match_section(s, i) {
        let j = i + 7;
        if j < n && space_char(s[j]) {
            let j2 = skip_space(s, j);
            let base = if j2 < n && s[j2] == BYTE_DOT {
                j2 + 1
            } else {
                j2
            };
            let e = scan_alpha(s, base);
            let name = copy_range(s, j2, e);
            if e > base && skip_space(s, e) == n - 1 {
                Some(Directive::Section(name))
            } else {
                None
            }
        } else {
            None
        }
    } else {
        None
    }
}

fn directive_global(s: &[u8]) -> (r: Option<Directive>)
    requires
        proper_line(s@),
    ensures
        r.deep_view() == dir_global(s@),
{
    let n = s.len();
    let i = skip_space(s, 0);
    if match_global(s, i) {
        let j = i + 6;
        if j < n && space_char(s[j]) {
            let j2 = skip_space(s, j);
            match try_label(s, j2) {
                None => None,
                Some((name, j3)) => {
                    if skip_space(s, j3) == s.len() - 1 {
                        Some(Directive::Global(name))
                    } else {
                        None
                    }
                },
            }
        } else {
            None
        }
    } else {
        None
    }
}

fn directive_data(s: &[u8]) -> (r: Option<Directive>)
    requires
        proper_line(s@),
    ensures
        r.deep_view() == dir_data(s@),
{
    let i = skip_space(s, 0);
    let (lab, j) = match try_label(s, i) {
        Some((name, p)) => (Some(name), p),
        None => (None, i),
    };
    if j < s.len() && space_char(s[j]) {
        let j2 = skip_space(s, j);
        if match_db(s, j2) {
            let k = j2 + 2;
            if k < s.len() && space_char(s[k]) {
                let k2 = skip_space(s, k);
                if k2 < s.len() && s[k2] == BYTE_QUOTE {
                    match scan_for_byte(s, k2 + 1, BYTE_QUOTE) {
                        None => None,
                        Some(q) => {
                            let content = copy_range(s, k2 + 1, q);
                            if skip_space(s, q + 1) == s.len() - 1 {
                                Some(Directive::Data(content, lab))
                            } else {
                                None
                            }
                        },
                    }
                } else {
                    None
                }
            } else {
                None
            }
        } else {
            None
        }
    } else {
        None
    }
}

/// Parse a directive line: the three shapes are keyword-disjoint, so
/// their order carries no meaning.
pub fn directive(s: &[u8]) -> (r: Option<Directive>)
    requires
        proper_line(s@),
    ensures
        r.deep_view() == parse_directive_spec(s@),
{
    if let Some(d) = directive_section(s) {
        return Some(d);
    }
    if let Some(d) = directive_global(s) {
        return Some(d);
    }
    directive_data(s)
}

// ---------------------------------------------------------------
// the whole line
// ---------------------------------------------------------------

/// The line grammar: blank, then directive, then source line; a line
/// matching none of the shapes is a syntax error.
pub open spec fn parse_line_spec(s: Seq<u8>) -> Option<SpecLine> {
    if space_end(s, 0) == s.len() - 1 {
        Some(SpecLine::Blank)
    } else {
        match parse_directive_spec(s) {
            Some(d) => Some(SpecLine::Directive(d)),
            None => match parse_source_spec(s) {
                Some(src) => Some(SpecLine::Source(src)),
                None => None,
            },
        }
    }
}

/// Classify one input line, which must end with exactly one line
/// terminator.  Returns precisely what the grammar model yields; a line
/// matching no shape is reported as a syntax error carrying the line's
/// raw text.
pub fn line(s: &[u8]) -> (r: Result<Line, AsmError>)
    requires
        proper_line(s@),
    ensures
        match r {
            Ok(l) => parse_line_spec(s@) == Some(l.deep_view()),
            Err(e) => parse_line_spec(s@) is None && e@ == SpecAsmError::SyntaxError(s@),
        },
{
    let i = skip_space(s, 0);
    if i == s.len() - 1 {
        return Ok(Line::Blank);
    }
    if let Some(d) = directive(s) {
        return Ok(Line::Directive(d));
    }
    if let Some(src) = source(s) {
        return Ok(Line::Source(src));
    }
    Err(AsmError::SyntaxError(vstd::slice::slice_to_vec(s)))
}

} // verus!
