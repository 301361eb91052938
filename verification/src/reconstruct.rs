//! Recomposition of a parsed source line.  A source line the grammar
//! produced can be rebuilt from its label, instruction, operand and
//! comment with canonical separators, and the rebuilt line parses back
//! to the very same structure; the lemmas here prove that round trip.
use vstd::prelude::*;

use crate::lexing::BYTE_NEWLINE;
use crate::lexing::digit_end;
use crate::lexing::digits_val;
use crate::lexing::is_alnum;
use crate::lexing::is_digit;
use crate::lexing::is_label_cont;
use crate::lexing::is_label_start;
use crate::lexing::is_space;
use crate::lexing::is_trimmed;
use crate::lexing::lemma_digit_end_exact;
use crate::lexing::lemma_label_cont_end_exact;
use crate::lexing::lemma_space_end_exact;
use crate::lexing::lemma_spec_decimal;
use crate::lexing::lemma_trimmed_of_padded;
use crate::lexing::space_end;
use crate::lexing::spec_decimal;
use crate::lexing::trimmed;
use crate::parser::Operand;
use crate::parser::Register;
use crate::parser::Source;
use crate::parser::SpecOperand;
use crate::parser::SpecSource;
use crate::parser::reg_token;
use crate::parser::label_token;
use crate::parser::instr_token;
use crate::parser::operand_token;
use crate::parser::comment_at;
use crate::parser::comment_text;
use crate::parser::tag2_at;
use crate::parser::tag3_at;
use crate::parser::kw_mov_at;
use crate::parser::kw_syscall_at;
use crate::parser::kw_section_at;
use crate::parser::kw_global_at;
use crate::parser::kw_db_at;
use crate::parser::spec_mov_name;
use crate::parser::spec_syscall_name;
use crate::parser::proper_line;
use crate::parser::parse_source_spec;
use crate::parser::parse_line_spec;
use crate::parser::src_comment_only;
use crate::parser::src_instruction_line;
use crate::parser::src_label_line;
use crate::parser::src_label_instr_line;
use crate::parser::src_tail;
use crate::parser::after_comma;
use crate::parser::dir_section;
use crate::parser::dir_global;
use crate::parser::dir_data;
use crate::parser::SpecLine;

verus! {

broadcast use vstd::slice::group_slice_axioms;

// ---------------------------------------------------------------
// what the grammar guarantees of a source line it produces
// ---------------------------------------------------------------

/// A valid label name: an identifier-start character followed by
/// continuation characters.
pub open spec fn wf_label(name: Seq<u8>) -> bool {
    &&& name.len() >= 1
    &&& is_label_start(name[0])
    &&& forall|k: int| 1 <= k < name.len() ==> is_label_cont(name[k])
}

/// A valid comment text: trimmed, with no line terminator inside.
pub open spec fn wf_comment(c: Seq<u8>) -> bool {
    &&& is_trimmed(c)
    &&& forall|k: int| 0 <= k < c.len() ==> c[k] != BYTE_NEWLINE
}

/// A valid symbol operand name: a label that no register spelling
/// opens, since the operand grammar tries registers first.
pub open spec fn wf_symbol(name: Seq<u8>) -> bool {
    &&& wf_label(name)
    &&& reg_token(name, 0) is None
}

/// What the grammar guarantees of a decoded operand.
pub open spec fn wf_operand(op: SpecOperand) -> bool {
    match op {
        SpecOperand::RegisterSymbol(_, name) => wf_symbol(name),
        _ => true,
    }
}

/// What the grammar guarantees of every source line it produces: valid
/// tokens, and the shape constraints of the four alternatives — an
/// operand only with an instruction, and a comment on every line that
/// has nothing else.
pub open spec fn wf_source(src: SpecSource) -> bool {
    &&& match src.label {
        Some(l) => wf_label(l),
        None => true,
    }
    &&& match src.instruction {
        Some(m) => m == spec_mov_name() || m == spec_syscall_name(),
        None => true,
    }
    &&& match src.operand {
        Some(op) => wf_operand(op),
        None => true,
    }
    &&& match src.comment {
        Some(c) => wf_comment(c),
        None => true,
    }
    &&& src.operand is Some ==> src.instruction is Some
    &&& (src.label is None && src.instruction is None) ==> (src.operand is None
        && src.comment is Some)
}

// ---------------------------------------------------------------
// the canonical text of a source line
// ---------------------------------------------------------------

/// The spelling of a register.
pub open spec fn reg_seq(r: Register) -> Seq<u8> {
    match r {
        Register::RAX => seq![114u8, 97u8, 120u8],
        Register::RBX => seq![114u8, 98u8, 120u8],
        Register::RCX => seq![114u8, 99u8, 120u8],
        Register::RDX => seq![114u8, 100u8, 120u8],
        Register::RBP => seq![114u8, 98u8, 112u8],
        Register::RSP => seq![114u8, 115u8, 112u8],
        Register::RSI => seq![114u8, 115u8, 105u8],
        Register::RDI => seq![114u8, 100u8, 105u8],
        Register::R8 => seq![114u8, 56u8],
        Register::R9 => seq![114u8, 57u8],
        Register::R10 => seq![114u8, 49u8, 48u8],
        Register::R11 => seq![114u8, 49u8, 49u8],
        Register::R12 => seq![114u8, 49u8, 50u8],
        Register::R13 => seq![114u8, 49u8, 51u8],
        Register::R14 => seq![114u8, 49u8, 52u8],
        Register::R15 => seq![114u8, 49u8, 53u8],
    }
}

/// The canonical text of an operand: the register spelling, then a
/// comma, one space and the second component where there is one.
pub open spec fn op_seq(op: SpecOperand) -> Seq<u8> {
    match op {
        SpecOperand::Register(r) => reg_seq(r),
        SpecOperand::RegisterPair(a, b) => reg_seq(a) + seq![44u8, 32u8] + reg_seq(b),
        SpecOperand::RegisterImmediate(r, v) => reg_seq(r) + seq![44u8, 32u8] + spec_decimal(
            v as int,
        ),
        SpecOperand::RegisterSymbol(r, name) => reg_seq(r) + seq![44u8, 32u8] + name,
    }
}

/// The label part of the canonical text: the name and its `:`.
pub open spec fn lbl_part(src: SpecSource) -> Seq<u8> {
    match src.label {
        Some(l) => l + seq![58u8],
        None => Seq::empty(),
    }
}

/// The instruction part of the canonical text.
pub open spec fn ins_part(src: SpecSource) -> Seq<u8> {
    match src.instruction {
        Some(m) => seq![32u8] + m,
        None => Seq::empty(),
    }
}

/// The operand part of the canonical text.
pub open spec fn op_part(src: SpecSource) -> Seq<u8> {
    match src.operand {
        Some(op) => seq![32u8] + op_seq(op),
        None => Seq::empty(),
    }
}

/// The comment part of the canonical text.
pub open spec fn cmt_part(src: SpecSource) -> Seq<u8> {
    match src.comment {
        Some(c) => seq![32u8, 59u8, 32u8] + c,
        None => Seq::empty(),
    }
}

/// The canonical text of a source line: `label:`, ` instruction`,
/// ` operand`, ` ; comment`, each part only where present, and the
/// line terminator.
pub open spec fn reconstruct_spec(src: SpecSource) -> Seq<u8> {
    lbl_part(src) + ins_part(src) + op_part(src) + cmt_part(src) + seq![BYTE_NEWLINE]
}

// ---------------------------------------------------------------
// executable reconstruction
// ---------------------------------------------------------------

fn push_all(dst: &mut Vec<u8>, more: &[u8])
    ensures
        final(dst)@ == old(dst)@ + more@,
{
    let ghost start = dst@;
    let mut i: usize = 0;
    while i < more.len()
        invariant
            i <= more@.len(),
            dst@ == start + more@.subrange(0, i as int),
        decreases more@.len() - i,
    {
        proof {
            assert(start + more@.subrange(0, i as int + 1) =~= (start + more@.subrange(
                0,
                i as int,
            )).push(more@[i as int]));
        }
        dst.push(more[i]);
        i = i + 1;
    }
    proof {
        assert(start + more@.subrange(0, i as int) =~= start + more@);
    }
}

/// The spelling of a register, as owned bytes.
pub fn reg_bytes(r: Register) -> (v: Vec<u8>)
    ensures
        v@ == reg_seq(r),
{
    let mut v: Vec<u8> = Vec::new();
    v.push(114);
    match r {
        Register::RAX => {
            v.push(97);
            v.push(120);
        },
        Register::RBX => {
            v.push(98);
            v.push(120);
        },
        Register::RCX => {
            v.push(99);
            v.push(120);
        },
        Register::RDX => {
            v.push(100);
            v.push(120);
        },
        Register::RBP => {
            v.push(98);
            v.push(112);
        },
        Register::RSP => {
            v.push(115);
            v.push(112);
        },
        Register::RSI => {
            v.push(115);
            v.push(105);
        },
        Register::RDI => {
            v.push(100);
            v.push(105);
        },
        Register::R8 => {
            v.push(56);
        },
        Register::R9 => {
            v.push(57);
        },
        Register::R10 => {
            v.push(49);
            v.push(48);
        },
        Register::R11 => {
            v.push(49);
            v.push(49);
        },
        Register::R12 => {
            v.push(49);
            v.push(50);
        },
        Register::R13 => {
            v.push(49);
            v.push(51);
        },
        Register::R14 => {
            v.push(49);
            v.push(52);
        },
        Register::R15 => {
            v.push(49);
            v.push(53);
        },
    }
    proof {
        assert(v@ =~= reg_seq(r));
    }
    v
}

/// The canonical decimal rendering of a value.
pub fn decimal_bytes(v: u64) -> (r: Vec<u8>)
    ensures
        r@ == spec_decimal(v as int),
    decreases v,
{
    if v < 10 {
        let mut r: Vec<u8> = Vec::new();
        r.push(48 + v as u8);
        proof {
            assert(r@ =~= spec_decimal(v as int));
        }
        r
    } else {
        let mut r = decimal_bytes(v / 10);
        r.push(48 + (v % 10) as u8);
        proof {
            assert(r@ =~= spec_decimal(v as int));
        }
        r
    }
}

/// The canonical text of an operand, as owned bytes.
pub fn operand_bytes(op: &Operand) -> (r: Vec<u8>)
    ensures
        r@ == op_seq(op@),
{
    let mut out: Vec<u8> = Vec::new();
    match op {
        Operand::Register(r) => {
            let b = reg_bytes(*r);
            push_all(&mut out, b.as_slice());
            proof {
                assert(out@ =~= op_seq(op@));
            }
        },
        Operand::RegisterPair(a, b) => {
            let ba = reg_bytes(*a);
            push_all(&mut out, ba.as_slice());
            out.push(44);
            out.push(32);
            let bb = reg_bytes(*b);
            push_all(&mut out, bb.as_slice());
            proof {
                assert(out@ =~= op_seq(op@));
            }
        },
        Operand::RegisterImmediate(a, v) => {
            let ba = reg_bytes(*a);
            push_all(&mut out, ba.as_slice());
            out.push(44);
            out.push(32);
            let dv = decimal_bytes(*v);
            push_all(&mut out, dv.as_slice());
            proof {
                assert(out@ =~= op_seq(op@));
            }
        },
        Operand::RegisterSymbol(a, name) => {
            let ba = reg_bytes(*a);
            push_all(&mut out, ba.as_slice());
            out.push(44);
            out.push(32);
            push_all(&mut out, name.as_slice());
            proof {
                assert(out@ =~= op_seq(op@));
            }
        },
    }
    out
}

/// Rebuild the canonical text of a source line from its parts.
#[verifier::rlimit(60)]
pub fn reconstruct(src: &Source) -> (r: Vec<u8>)
    ensures
        r@ == reconstruct_spec(src@),
{
    let mut out: Vec<u8> = Vec::new();
    if let Some(l) = &src.label {
        push_all(&mut out, l.as_slice());
        out.push(58);
    }
    proof {
        assert(out@ =~= lbl_part(src@));
    }
    if let Some(m) = &src.instruction {
        out.push(32);
        push_all(&mut out, m.as_slice());
    }
    proof {
        assert(out@ =~= lbl_part(src@) + ins_part(src@));
    }
    if let Some(op) = &src.operand {
        out.push(32);
        let b = operand_bytes(op);
        push_all(&mut out, b.as_slice());
    }
    proof {
        assert(out@ =~= lbl_part(src@) + ins_part(src@) + op_part(src@));
    }
    if let Some(c) = &src.comment {
        out.push(32);
        out.push(59);
        out.push(32);
        push_all(&mut out, c.as_slice());
    }
    proof {
        assert(out@ =~= lbl_part(src@) + ins_part(src@) + op_part(src@) + cmt_part(src@));
    }
    out.push(BYTE_NEWLINE);
    proof {
        assert(out@ =~= reconstruct_spec(src@));
    }
    out
}

// ---------------------------------------------------------------
// what each token parser does on known content
// ---------------------------------------------------------------

/// A register spelling standing alone in the input is read back as that
/// register: the spellings are mutually prefix-free, so the one whose
/// bytes are there is the one the cascade finds.
proof fn lemma_reg_token_at(s: Seq<u8>, i: int, r: Register)
    requires
        0 <= i,
        i + reg_seq(r).len() <= s.len(),
        reg_seq(r) == s.subrange(i, i + reg_seq(r).len()),
    ensures
        reg_token(s, i) == Some((r, i + reg_seq(r).len())),
{
    assert(forall|k: int| 0 <= k < reg_seq(r).len() ==> s[i + k] == #[trigger] reg_seq(r)[k]);
}

/// A two-byte tag of token characters matching inside the input, right
/// where a token ends, must already match inside the token.
proof fn lemma_tag2_transfer(s: Seq<u8>, i: int, name: Seq<u8>, a: u8, b: u8)
    requires
        name.len() >= 1,
        0 <= i,
        i + name.len() < s.len(),
        name == s.subrange(i, i + name.len()),
        !is_alnum(s[i + name.len()]),
        is_alnum(a) && is_alnum(b),
        tag2_at(s, i, a, b),
    ensures
        tag2_at(name, 0, a, b),
{
    assert(forall|k: int| 0 <= k < name.len() ==> s[i + k] == #[trigger] name[k]);
    if name.len() < 2 {
        assert(s[i + 1] == b);
        assert(false);
    }
}

/// Three-byte variant of [`lemma_tag2_transfer`].
proof fn lemma_tag3_transfer(s: Seq<u8>, i: int, name: Seq<u8>, a: u8, b: u8, c: u8)
    requires
        name.len() >= 1,
        0 <= i,
        i + name.len() < s.len(),
        name == s.subrange(i, i + name.len()),
        !is_alnum(s[i + name.len()]),
        is_alnum(a) && is_alnum(b) && is_alnum(c),
        tag3_at(s, i, a, b, c),
    ensures
        tag3_at(name, 0, a, b, c),
{
    assert(forall|k: int| 0 <= k < name.len() ==> s[i + k] == #[trigger] name[k]);
    if name.len() == 1 {
        assert(s[i + 1] == b);
        assert(false);
    } else if name.len() == 2 {
        assert(s[i + 2] == c);
        assert(false);
    }
}

/// Where a token that no register spelling opens stands in the input,
/// delimited on the right by a non-token character, the register parser
/// fails.
proof fn lemma_reg_token_none_embedded(s: Seq<u8>, i: int, name: Seq<u8>)
    requires
        name.len() >= 1,
        0 <= i,
        i + name.len() < s.len(),
        name == s.subrange(i, i + name.len()),
        !is_alnum(s[i + name.len()]),
        reg_token(name, 0) is None,
    ensures
        reg_token(s, i) is None,
{
    if tag3_at(s, i, 114, 97, 120) {
        lemma_tag3_transfer(s, i, name, 114, 97, 120);
    }
    if tag3_at(s, i, 114, 98, 120) {
        lemma_tag3_transfer(s, i, name, 114, 98, 120);
    }
    if tag3_at(s, i, 114, 99, 120) {
        lemma_tag3_transfer(s, i, name, 114, 99, 120);
    }
    if tag3_at(s, i, 114, 100, 120) {
        lemma_tag3_transfer(s, i, name, 114, 100, 120);
    }
    if tag3_at(s, i, 114, 98, 112) {
        lemma_tag3_transfer(s, i, name, 114, 98, 112);
    }
    if tag3_at(s, i, 114, 115, 112) {
        lemma_tag3_transfer(s, i, name, 114, 115, 112);
    }
    if tag3_at(s, i, 114, 115, 105) {
        lemma_tag3_transfer(s, i, name, 114, 115, 105);
    }
    if tag3_at(s, i, 114, 100, 105) {
        lemma_tag3_transfer(s, i, name, 114, 100, 105);
    }
    if tag2_at(s, i, 114, 56) {
        lemma_tag2_transfer(s, i, name, 114, 56);
    }
    if tag2_at(s, i, 114, 57) {
        lemma_tag2_transfer(s, i, name, 114, 57);
    }
    if tag3_at(s, i, 114, 49, 48) {
        lemma_tag3_transfer(s, i, name, 114, 49, 48);
    }
    if tag3_at(s, i, 114, 49, 49) {
        lemma_tag3_transfer(s, i, name, 114, 49, 49);
    }
    if tag3_at(s, i, 114, 49, 50) {
        lemma_tag3_transfer(s, i, name, 114, 49, 50);
    }
    if tag3_at(s, i, 114, 49, 51) {
        lemma_tag3_transfer(s, i, name, 114, 49, 51);
    }
    if tag3_at(s, i, 114, 49, 52) {
        lemma_tag3_transfer(s, i, name, 114, 49, 52);
    }
    if tag3_at(s, i, 114, 49, 53) {
        lemma_tag3_transfer(s, i, name, 114, 49, 53);
    }
}

/// A token that a register spelling opens keeps that spelling wherever
/// its bytes stand in the input.
proof fn lemma_reg_token_some_embedded(s: Seq<u8>, i: int, name: Seq<u8>)
    requires
        0 <= i,
        i + name.len() <= s.len(),
        name == s.subrange(i, i + name.len()),
        reg_token(name, 0) is Some,
    ensures
        reg_token(s, i) is Some,
{
    assert(forall|k: int| 0 <= k < name.len() ==> s[i + k] == #[trigger] name[k]);
}

/// A label standing in the input, delimited by a non-continuation
/// character, is read back exactly, with a trailing `:` consumed.
proof fn lemma_label_token_at(s: Seq<u8>, i: int, name: Seq<u8>)
    requires
        wf_label(name),
        0 <= i,
        i + name.len() < s.len(),
        name == s.subrange(i, i + name.len()),
        !is_label_cont(s[i + name.len()]),
    ensures
        label_token(s, i) == Some(
            (
                name,
                if s[i + name.len()] == 58 {
                    i + name.len() + 1
                } else {
                    i + name.len()
                },
            ),
        ),
{
    assert(forall|k: int| 0 <= k < name.len() ==> s[i + k] == #[trigger] name[k]);
    assert(is_label_start(s[i]));
    assert forall|j: int| i + 1 <= j < i + name.len() implies is_label_cont(s[j]) by {
        assert(s[j] == name[j - i]);
    };
    lemma_label_cont_end_exact(s, i + 1, i + name.len());
    assert(s.subrange(i, i + name.len()) =~= name);
}

/// A mnemonic standing in the input is read back exactly.
proof fn lemma_instr_token_at(s: Seq<u8>, i: int, m: Seq<u8>)
    requires
        m == spec_mov_name() || m == spec_syscall_name(),
        0 <= i,
        i + m.len() <= s.len(),
        m == s.subrange(i, i + m.len()),
    ensures
        instr_token(s, i) == Some((m, i + m.len())),
{
    assert(forall|k: int| 0 <= k < m.len() ==> s[i + k] == #[trigger] m[k]);
    if m == spec_mov_name() {
        assert(kw_mov_at(s, i));
        assert(s.subrange(i, i + 3) =~= m);
    } else {
        assert(!kw_mov_at(s, i));
        assert(kw_syscall_at(s, i));
        assert(s.subrange(i, i + 7) =~= m);
    }
}

/// Requirements shared by the operand round-trip lemmas: the operand's
/// canonical text stands at `i`, a space or the terminator follows, and
/// no comma can extend the match.
pub open spec fn operand_ctx(s: Seq<u8>, i: int, o: SpecOperand) -> bool {
    &&& 0 <= i
    &&& i + op_seq(o).len() < s.len()
    &&& op_seq(o) == s.subrange(i, i + op_seq(o).len())
    &&& (s[i + op_seq(o).len()] == 32 || s[i + op_seq(o).len()] == BYTE_NEWLINE)
    &&& after_comma(s, i + op_seq(o).len()) is None
}

proof fn lemma_operand_bare_at(s: Seq<u8>, i: int, r: Register)
    requires
        operand_ctx(s, i, SpecOperand::Register(r)),
    ensures
        operand_token(s, i) == Some((SpecOperand::Register(r), i + op_seq(SpecOperand::Register(r)).len())),
{
    let o = SpecOperand::Register(r);
    assert(forall|k: int| 0 <= k < op_seq(o).len() ==> s[i + k] == #[trigger] op_seq(o)[k]);
    assert(reg_seq(r) =~= s.subrange(i, i + reg_seq(r).len()));
    lemma_reg_token_at(s, i, r);
}

#[verifier::rlimit(60)]
proof fn lemma_operand_pair_at(s: Seq<u8>, i: int, a: Register, b: Register)
    requires
        operand_ctx(s, i, SpecOperand::RegisterPair(a, b)),
    ensures
        operand_token(s, i) == Some(
            (SpecOperand::RegisterPair(a, b), i + op_seq(SpecOperand::RegisterPair(a, b)).len()),
        ),
{
    let o = SpecOperand::RegisterPair(a, b);
    let oe = i + op_seq(o).len();
    assert(forall|k: int| 0 <= k < op_seq(o).len() ==> s[i + k] == #[trigger] op_seq(o)[k]);
    let la = reg_seq(a).len() as int;
    assert(reg_seq(a) =~= s.subrange(i, i + la));
    lemma_reg_token_at(s, i, a);
    let p = i + la;
    assert(op_seq(o)[la] == 44 && op_seq(o)[la + 1] == 32);
    assert(s[p] == 44 && s[p + 1] == 32);
    assert forall|k: int| 0 <= k < reg_seq(b).len() implies s[p + 2 + k] == #[trigger] reg_seq(
        b,
    )[k] by {
        assert(s[p + 2 + k] == op_seq(o)[la + 2 + k]);
    };
    assert(reg_seq(b)[0] == 114 && !is_space(s[p + 2]));
    lemma_space_end_exact(s, p, p);
    lemma_space_end_exact(s, p + 1, p + 2);
    assert(after_comma(s, p) == Some(p + 2));
    assert(reg_seq(b) =~= s.subrange(p + 2, oe));
    lemma_reg_token_at(s, p + 2, b);
}

#[verifier::rlimit(60)]
proof fn lemma_operand_imm_at(s: Seq<u8>, i: int, r: Register, v: u64)
    requires
        operand_ctx(s, i, SpecOperand::RegisterImmediate(r, v)),
    ensures
        operand_token(s, i) == Some(
            (
                SpecOperand::RegisterImmediate(r, v),
                i + op_seq(SpecOperand::RegisterImmediate(r, v)).len(),
            ),
        ),
{
    let o = SpecOperand::RegisterImmediate(r, v);
    let oe = i + op_seq(o).len();
    assert(forall|k: int| 0 <= k < op_seq(o).len() ==> s[i + k] == #[trigger] op_seq(o)[k]);
    let la = reg_seq(r).len() as int;
    assert(reg_seq(r) =~= s.subrange(i, i + la));
    lemma_reg_token_at(s, i, r);
    let p = i + la;
    assert(op_seq(o)[la] == 44 && op_seq(o)[la + 1] == 32);
    assert(s[p] == 44 && s[p + 1] == 32);
    let b0 = p + 2;
    lemma_spec_decimal(v as int);
    assert forall|k: int| 0 <= k < spec_decimal(v as int).len() implies s[b0 + k]
        == #[trigger] spec_decimal(v as int)[k] by {
        assert(s[b0 + k] == op_seq(o)[la + 2 + k]);
    };
    assert forall|k: int| b0 <= k < oe implies is_digit(s[k]) by {
        assert(s[k] == spec_decimal(v as int)[k - b0]);
    };
    assert(is_digit(s[b0]) && s[b0] != 114 && !is_space(s[b0]));
    lemma_space_end_exact(s, p, p);
    lemma_space_end_exact(s, p + 1, p + 2);
    assert(after_comma(s, p) == Some(p + 2));
    assert(reg_token(s, b0) is None);
    lemma_digit_end_exact(s, b0, oe);
    assert(s.subrange(b0, oe) =~= spec_decimal(v as int));
    assert(digits_val(s.subrange(b0, oe)) == v);
}

#[verifier::rlimit(60)]
proof fn lemma_operand_sym_at(s: Seq<u8>, i: int, r: Register, name: Seq<u8>)
    requires
        operand_ctx(s, i, SpecOperand::RegisterSymbol(r, name)),
        wf_symbol(name),
    ensures
        operand_token(s, i) == Some(
            (
                SpecOperand::RegisterSymbol(r, name),
                i + op_seq(SpecOperand::RegisterSymbol(r, name)).len(),
            ),
        ),
{
    let o = SpecOperand::RegisterSymbol(r, name);
    let oe = i + op_seq(o).len();
    assert(forall|k: int| 0 <= k < op_seq(o).len() ==> s[i + k] == #[trigger] op_seq(o)[k]);
    let la = reg_seq(r).len() as int;
    assert(reg_seq(r) =~= s.subrange(i, i + la));
    lemma_reg_token_at(s, i, r);
    let p = i + la;
    assert(op_seq(o)[la] == 44 && op_seq(o)[la + 1] == 32);
    assert(s[p] == 44 && s[p + 1] == 32);
    let b0 = p + 2;
    assert forall|k: int| 0 <= k < name.len() implies s[b0 + k] == #[trigger] name[k] by {
        assert(s[b0 + k] == op_seq(o)[la + 2 + k]);
    };
    assert(is_label_start(s[b0]) && !is_space(s[b0]));
    lemma_space_end_exact(s, p, p);
    lemma_space_end_exact(s, p + 1, p + 2);
    assert(after_comma(s, p) == Some(p + 2));
    assert(name =~= s.subrange(b0, oe));
    assert(!is_alnum(s[oe]));
    lemma_reg_token_none_embedded(s, b0, name);
    assert(!is_digit(s[b0]));
    assert(digit_end(s, b0) == b0);
    assert(!is_label_cont(s[oe]) && s[oe] != 58);
    lemma_label_token_at(s, b0, name);
}

/// An operand standing in the input, followed by a space or the line
/// terminator and by no comma that could extend it, is read back
/// exactly.
proof fn lemma_operand_token_at(s: Seq<u8>, i: int, o: SpecOperand)
    requires
        wf_operand(o),
        operand_ctx(s, i, o),
    ensures
        operand_token(s, i) == Some((o, i + op_seq(o).len())),
{
    match o {
        SpecOperand::Register(r) => {
            lemma_operand_bare_at(s, i, r);
        },
        SpecOperand::RegisterPair(a, b) => {
            lemma_operand_pair_at(s, i, a, b);
        },
        SpecOperand::RegisterImmediate(r, v) => {
            lemma_operand_imm_at(s, i, r, v);
        },
        SpecOperand::RegisterSymbol(r, name) => {
            lemma_operand_sym_at(s, i, r, name);
        },
    }
}

// ---------------------------------------------------------------
// the bytes the parts are made of
// ---------------------------------------------------------------

/// Register spellings are short alphanumeric tokens opening with `r`.
proof fn lemma_reg_seq_bytes(r: Register)
    ensures
        2 <= reg_seq(r).len() <= 3,
        reg_seq(r)[0] == 114,
        forall|k: int| 0 <= k < reg_seq(r).len() ==> is_alnum(#[trigger] reg_seq(r)[k]),
{
    assert forall|k: int| 0 <= k < reg_seq(r).len() implies is_alnum(#[trigger] reg_seq(r)[k]) by {
        if k == 0 {
        } else if k == 1 {
        } else {
        }
    };
}

/// Mnemonic spellings are alphabetic and open with `m` or `s`.
proof fn lemma_mnemonic_bytes(m: Seq<u8>)
    requires
        m == spec_mov_name() || m == spec_syscall_name(),
    ensures
        3 <= m.len() <= 7,
        m[0] == 109 || m[0] == 115,
        forall|k: int| 0 <= k < m.len() ==> is_alnum(#[trigger] m[k]),
{
    assert forall|k: int| 0 <= k < m.len() implies is_alnum(#[trigger] m[k]) by {
        if k == 0 {
        } else if k == 1 {
        } else if k == 2 {
        } else if k == 3 {
        } else if k == 4 {
        } else if k == 5 {
        } else {
        }
    };
}

/// Label names hold no whitespace, separator or terminator bytes.
proof fn lemma_label_bytes(l: Seq<u8>)
    requires
        wf_label(l),
    ensures
        forall|k: int| 0 <= k < l.len() ==> !is_space(#[trigger] l[k]),
        forall|k: int| 0 <= k < l.len() ==> #[trigger] l[k] != 10 && l[k] != 59 && l[k] != 44
            && l[k] != 58,
{
}

/// The canonical operand text opens with `r` and holds only token
/// characters, commas and spaces: never a terminator or a `;`.
proof fn lemma_op_seq_bytes(o: SpecOperand)
    requires
        wf_operand(o),
    ensures
        op_seq(o).len() >= 2,
        op_seq(o)[0] == 114,
        forall|k: int| 0 <= k < op_seq(o).len() ==> #[trigger] op_seq(o)[k] != 10 && op_seq(o)[k]
            != 59,
{
    match o {
        SpecOperand::Register(r) => {
            lemma_reg_seq_bytes(r);
        },
        SpecOperand::RegisterPair(a, b) => {
            lemma_reg_seq_bytes(a);
            lemma_reg_seq_bytes(b);
        },
        SpecOperand::RegisterImmediate(r, v) => {
            lemma_reg_seq_bytes(r);
            lemma_spec_decimal(v as int);
        },
        SpecOperand::RegisterSymbol(r, name) => {
            lemma_reg_seq_bytes(r);
            lemma_label_bytes(name);
        },
    }
}

// ---------------------------------------------------------------
// the four shapes round-trip
// ---------------------------------------------------------------

/// The comment-only shape: its canonical text is a proper line and
/// parses back to the same structure.
proof fn lemma_round_trip_comment_only(src: SpecSource)
    requires
        wf_source(src),
        src.label is None,
        src.instruction is None,
    ensures
        proper_line(reconstruct_spec(src)),
        parse_line_spec(reconstruct_spec(src)) == Some(SpecLine::Source(src)),
{
    let s = reconstruct_spec(src);
    let c = src.comment->0;
    assert(s =~= seq![32u8, 59u8, 32u8] + c + seq![BYTE_NEWLINE]);
    let n = s.len() - 1;
    assert(n == 3 + c.len());
    assert(forall|k: int| 0 <= k < c.len() ==> s[3 + k] == #[trigger] c[k]);
    // a proper line: the only terminator is the last byte
    assert forall|k: int| 0 <= k < n implies s[k] != BYTE_NEWLINE by {
        if 3 <= k {
            assert(s[k] == c[k - 3]);
        }
    };
    assert(proper_line(s));
    // not blank: the `;` stops the leading-whitespace scan short of the end
    lemma_space_end_exact(s, 0, 1);
    // no directive opens with `;`
    assert(!kw_section_at(s, 1) && !kw_global_at(s, 1));
    assert(dir_section(s) is None);
    assert(dir_global(s) is None);
    assert(label_token(s, 1) is None);
    assert(!is_space(s[1]));
    assert(dir_data(s) is None);
    // the comment-only shape itself
    assert(comment_at(s, 1));
    assert(s.subrange(2, n) =~= seq![32u8] + c);
    lemma_trimmed_of_padded(c);
    assert(comment_text(s, 1) == c);
    assert(src_comment_only(s) == Some(src));
}

/// Whatever the register parser consumes is two or three alphanumeric
/// bytes.
proof fn lemma_reg_token_props(s: Seq<u8>, i: int)
    ensures
        reg_token(s, i) matches Some((r, p)) ==> i + 2 <= p <= i + 3 && p <= s.len() && (forall|
            k: int,
        |
            i <= k < p ==> is_alnum(#[trigger] s[k])),
{
    if tag3_at(s, i, 114, 97, 120) {
    } else if tag3_at(s, i, 114, 98, 120) {
    } else if tag3_at(s, i, 114, 99, 120) {
    } else if tag3_at(s, i, 114, 100, 120) {
    } else if tag3_at(s, i, 114, 98, 112) {
    } else if tag3_at(s, i, 114, 115, 112) {
    } else if tag3_at(s, i, 114, 115, 105) {
    } else if tag3_at(s, i, 114, 100, 105) {
    } else if tag2_at(s, i, 114, 56) {
    } else if tag2_at(s, i, 114, 57) {
    } else if tag3_at(s, i, 114, 49, 48) {
    } else if tag3_at(s, i, 114, 49, 49) {
    } else if tag3_at(s, i, 114, 49, 50) {
    } else if tag3_at(s, i, 114, 49, 51) {
    } else if tag3_at(s, i, 114, 49, 52) {
    } else if tag3_at(s, i, 114, 49, 53) {
    }
}

/// The layout of a line's trailing part from the position of its
/// mnemonic: the mnemonic, the optional operand and comment parts with
/// their canonical separators, then the line terminator, which is the
/// line's last byte.
pub open spec fn mnemonic_chain_ctx(
    s: Seq<u8>,
    i: int,
    m: Seq<u8>,
    op: Option<SpecOperand>,
    c: Option<Seq<u8>>,
) -> bool {
    let oplen: int = match op {
        Some(o) => 1 + op_seq(o).len() as int,
        None => 0,
    };
    let cmtlen: int = match c {
        Some(cc) => 3 + cc.len() as int,
        None => 0,
    };
    &&& 0 <= i
    &&& s.len() == i + (m.len() as int) + oplen + cmtlen + 1
    &&& m == s.subrange(i, i + (m.len() as int))
    &&& match op {
        Some(o) => s[i + (m.len() as int)] == 32 && op_seq(o) == s.subrange(
            i + (m.len() as int) + 1,
            i + (m.len() as int) + 1 + op_seq(o).len(),
        ),
        None => true,
    }
    &&& match c {
        Some(cc) => {
            let cs = i + (m.len() as int) + oplen;
            s[cs] == 32 && s[cs + 1] == 59 && s[cs + 2] == 32 && cc == s.subrange(
                cs + 3,
                cs + 3 + cc.len(),
            )
        },
        None => true,
    }
    &&& s[s.len() - 1] == BYTE_NEWLINE
}

/// From its mnemonic on, a canonical trailing part is read back
/// exactly: the mnemonic, then the operand where present, then the
/// comment where present, ending at the line terminator.
#[verifier::rlimit(100)]
proof fn lemma_mnemonic_chain(
    s: Seq<u8>,
    i: int,
    m: Seq<u8>,
    op: Option<SpecOperand>,
    c: Option<Seq<u8>>,
    lab: Option<Seq<u8>>,
)
    requires
        m == spec_mov_name() || m == spec_syscall_name(),
        match op {
            Some(o) => wf_operand(o),
            None => true,
        },
        match c {
            Some(cc) => wf_comment(cc),
            None => true,
        },
        mnemonic_chain_ctx(s, i, m, op, c),
    ensures
        instr_token(s, i) == Some((m, i + (m.len() as int))),
        ({
            let j = i + (m.len() as int);
            let k0 = space_end(s, j);
            let chain = match operand_token(s, k0) {
                Some((o2, k1)) => src_tail(s, lab, Some(m), Some(o2), k1),
                None => src_tail(s, lab, Some(m), None, k0),
            };
            chain == Some(
                SpecSource { label: lab, instruction: Some(m), operand: op, comment: c },
            )
        }),
{
    let n = s.len() - 1;
    let j = i + (m.len() as int);
    lemma_mnemonic_bytes(m);
    lemma_instr_token_at(s, i, m);
    let oplen: int = match op {
        Some(o) => 1 + op_seq(o).len() as int,
        None => 0,
    };
    // where the comment part (or the terminator) begins
    let k1 = i + (m.len() as int) + oplen;
    // the position every alternative reaches after the operand
    match op {
        Some(o) => {
            lemma_op_seq_bytes(o);
            assert(s[j] == 32);
            assert(s[j + 1] == op_seq(o)[0]);
            assert(!is_space(s[j + 1]));
            lemma_space_end_exact(s, j, j + 1);
            // the byte after the operand is a space or the terminator
            match c {
                Some(cc) => {
                    assert(s[k1] == 32);
                    assert(s[k1 + 1] == 59);
                    lemma_space_end_exact(s, k1, k1 + 1);
                },
                None => {
                    assert(k1 == n && s[k1] == BYTE_NEWLINE);
                    lemma_space_end_exact(s, k1, k1);
                },
            }
            assert(after_comma(s, k1) is None);
            assert(operand_ctx(s, j + 1, o));
            lemma_operand_token_at(s, j + 1, o);
            assert(operand_token(s, space_end(s, j)) == Some((o, k1)));
        },
        None => {
            match c {
                Some(cc) => {
                    assert(s[j] == 32);
                    assert(s[j + 1] == 59);
                    lemma_space_end_exact(s, j, j + 1);
                    assert(reg_token(s, j + 1) is None);
                    assert(operand_token(s, j + 1) is None);
                },
                None => {
                    assert(j == n && s[j] == BYTE_NEWLINE);
                    lemma_space_end_exact(s, j, j);
                    assert(reg_token(s, j) is None);
                    assert(operand_token(s, j) is None);
                },
            }
        },
    }
    // the tail: an optional comment, then the terminator
    match c {
        Some(cc) => {
            let k2 = match op {
                Some(_) => k1 + 1,
                None => j + 1,
            };
            assert(space_end(s, k1) == k2);
            assert(s[k2] == 59 && k2 < n);
            assert(comment_at(s, k2));
            assert(s.subrange(k2 + 1, n) =~= seq![32u8] + cc);
            lemma_trimmed_of_padded(cc);
            assert(comment_text(s, k2) == cc);
        },
        None => {
            assert(space_end(s, k1) == k1 && k1 == n);
            assert(!comment_at(s, k1));
        },
    }
}

/// The instruction shape: its canonical text is a proper line and
/// parses back to the same structure.
#[verifier::rlimit(100)]
proof fn lemma_round_trip_instruction(src: SpecSource)
    requires
        wf_source(src),
        src.label is None,
        src.instruction is Some,
    ensures
        proper_line(reconstruct_spec(src)),
        parse_line_spec(reconstruct_spec(src)) == Some(SpecLine::Source(src)),
{
    let s = reconstruct_spec(src);
    let m = src.instruction->0;
    let n = s.len() - 1;
    lemma_mnemonic_bytes(m);
    assert(s =~= (seq![32u8] + m) + op_part(src) + cmt_part(src) + seq![BYTE_NEWLINE]);
    assert(s[0] == 32 && s[1] == m[0]);
    let oplen: int = match src.operand {
        Some(o) => 1 + op_seq(o).len() as int,
        None => 0,
    };
    let cmtlen: int = match src.comment {
        Some(cc) => 3 + cc.len() as int,
        None => 0,
    };
    assert(s.len() == 1 + (m.len() as int) + oplen + cmtlen + 1);
    // the layout facts behind every step below
    assert(m =~= s.subrange(1, 1 + (m.len() as int)));
    match src.operand {
        Some(o) => {
            assert(op_part(src)[0] == 32);
            assert(s[1 + (m.len() as int)] == 32);
            assert forall|k: int| 0 <= k < op_seq(o).len() implies s[1 + (m.len() as int) + 1 + k]
                == #[trigger] op_seq(o)[k] by {
                assert(op_part(src)[1 + k] == op_seq(o)[k]);
            };
            assert(op_seq(o) =~= s.subrange(1 + (m.len() as int) + 1, 1 + (m.len() as int) + 1 + op_seq(o).len()));
        },
        None => {},
    }
    match src.comment {
        Some(cc) => {
            let cs = 1 + (m.len() as int) + oplen;
            assert(cmt_part(src)[0] == 32 && cmt_part(src)[1] == 59 && cmt_part(src)[2] == 32);
            assert(s[cs] == 32 && s[cs + 1] == 59 && s[cs + 2] == 32);
            assert forall|k: int| 0 <= k < cc.len() implies s[cs + 3 + k] == #[trigger] cc[k] by {
                assert(cmt_part(src)[3 + k] == cc[k]);
            };
            assert(cc =~= s.subrange(cs + 3, cs + 3 + cc.len()));
        },
        None => {},
    }
    assert(s[n] == BYTE_NEWLINE);
    assert(mnemonic_chain_ctx(s, 1, m, src.operand, src.comment));
    // a proper line
    match src.operand {
        Some(o) => {
            lemma_op_seq_bytes(o);
        },
        None => {},
    }
    assert forall|k: int| 0 <= k < n implies s[k] != BYTE_NEWLINE by {
        if 1 <= k < 1 + (m.len() as int) {
            assert(s[k] == m[k - 1]);
            assert(is_alnum(m[k - 1]));
        } else if 1 + (m.len() as int) <= k < 1 + (m.len() as int) + oplen {
            let o = src.operand->0;
            if k > 1 + (m.len() as int) {
                assert(s[k] == op_seq(o)[k - 1 - (m.len() as int) - 1]);
            }
        } else if 1 + (m.len() as int) + oplen <= k < n {
            let cc = src.comment->0;
            let cs = 1 + (m.len() as int) + oplen;
            if k >= cs + 3 {
                assert(s[k] == cc[k - cs - 3]);
            }
        }
    };
    assert(proper_line(s));
    // not blank
    lemma_space_end_exact(s, 0, 1);
    assert(space_end(s, 0) != n);
    // no directive: the mnemonic is neither `section` nor `global`, and
    // read as a would-be data label it is followed by no `db`
    assert(!kw_section_at(s, 1) && !kw_global_at(s, 1)) by {
        assert(s[1] == m[0] && s[2] == m[1]);
    }
    assert(dir_section(s) is None);
    assert(dir_global(s) is None);
    assert(dir_data(s) is None) by {
        assert(is_label_start(s[1]));
        assert forall|k: int| 2 <= k < 1 + (m.len() as int) implies is_label_cont(s[k]) by {
            assert(s[k] == m[k - 1]);
        };
        assert(!is_label_cont(s[1 + (m.len() as int)]));
        lemma_label_token_at(s, 1, m);
        let j = 1 + (m.len() as int);
        if oplen > 0 {
            let o = src.operand->0;
            assert(s[j + 1] == op_seq(o)[0] && op_seq(o)[0] == 114);
            lemma_space_end_exact(s, j, j + 1);
            assert(!kw_db_at(s, j + 1));
        } else if cmtlen > 0 {
            assert(s[j + 1] == 59);
            lemma_space_end_exact(s, j, j + 1);
            assert(!kw_db_at(s, j + 1));
        } else {
            assert(s[j] == BYTE_NEWLINE && !is_space(s[j]));
        }
    }
    // not comment-only
    assert(s[1] != 59);
    assert(src_comment_only(s) is None);
    // the instruction shape succeeds
    lemma_mnemonic_chain(s, 1, m, src.operand, src.comment, None);
    assert(src_instruction_line(s) == Some(src));
}


/// The head of a canonical labelled line: the label's bytes from
/// position zero, its `:`, and a proper line around them.
pub open spec fn label_head_ctx(s: Seq<u8>, l: Seq<u8>) -> bool {
    &&& wf_label(l)
    &&& l.len() + 1 < s.len()
    &&& l == s.subrange(0, l.len() as int)
    &&& s[l.len() as int] == 58
    &&& s[s.len() - 1] == BYTE_NEWLINE
    &&& forall|k: int| 0 <= k < s.len() - 1 ==> s[k] != BYTE_NEWLINE
}

/// On a labelled line, the instruction shape fails: whatever prefix of
/// the label reads as a mnemonic or a register, the `:` or a label
/// character stops the shape before the line terminator.
#[verifier::rlimit(100)]
proof fn lemma_instruction_shape_fails_on_label(s: Seq<u8>, l: Seq<u8>)
    requires
        label_head_ctx(s, l),
    ensures
        src_instruction_line(s) is None,
{
    let ll = l.len() as int;
    let n = s.len() - 1;
    assert(forall|k: int| 0 <= k < ll ==> s[k] == #[trigger] l[k]);
    lemma_label_bytes(l);
    lemma_space_end_exact(s, 0, 0);
    match instr_token(s, 0) {
        None => {},
        Some((mm, j)) => {
            // the match cannot cross the `:`
            if kw_mov_at(s, 0) {
                if ll < 3 {
                    assert(s[ll] == 58);
                    assert(false);
                }
            } else {
                assert(kw_syscall_at(s, 0));
                if ll < 7 {
                    assert(s[ll] == 58);
                    assert(false);
                }
            }
            assert(j <= ll);
            if j < ll {
                assert(s[j] == l[j]);
            } else {
                assert(s[j] == 58);
            }
            assert(!is_space(s[j]));
            lemma_space_end_exact(s, j, j);
            lemma_reg_token_props(s, j);
            match reg_token(s, j) {
                Some((r, p)) => {
                    // an alphanumeric run cannot cross the `:` either
                    if p > ll {
                        assert(is_alnum(s[ll]));
                        assert(false);
                    }
                    if p < ll {
                        assert(s[p] == l[p]);
                    } else {
                        assert(s[p] == 58);
                    }
                    assert(!is_space(s[p]));
                    lemma_space_end_exact(s, p, p);
                    assert(s[p] != 44);
                    assert(after_comma(s, p) is None);
                    assert(operand_token(s, 0 + j) == Some((SpecOperand::Register(r), p)));
                    // the tail stops at a label character or the `:`
                    assert(s[p] != 59 && s[p] != BYTE_NEWLINE);
                    assert(p != n);
                    assert(src_tail(s, None, Some(mm), Some(SpecOperand::Register(r)), p)
                        is None);
                },
                None => {
                    assert(operand_token(s, j) is None);
                    assert(s[j] != 59 && s[j] != BYTE_NEWLINE);
                    assert(j != n);
                    assert(src_tail(s, None, Some(mm), None, j) is None);
                },
            }
        },
    }
}

/// On a labelled line whose `:` is followed by the terminator, or by a
/// space and then neither whitespace nor `db`, every directive shape
/// fails.
#[verifier::rlimit(100)]
proof fn lemma_directives_fail_label_led(s: Seq<u8>, l: Seq<u8>)
    requires
        label_head_ctx(s, l),
        ({
            let j = l.len() + 1 as int;
            s[j as int] == BYTE_NEWLINE || (s[j as int] == 32 && j + 1 < s.len() && !is_space(
                s[j as int + 1],
            ) && s[j as int + 1] != 100)
        }),
    ensures
        dir_section(s) is None,
        dir_global(s) is None,
        dir_data(s) is None,
{
    let ll = l.len() as int;
    let j = ll + 1;
    assert(forall|k: int| 0 <= k < ll ==> s[k] == #[trigger] l[k]);
    lemma_label_bytes(l);
    lemma_space_end_exact(s, 0, 0);
    // `section`/`global` can only match inside the label, and then a
    // label character or the `:` follows where whitespace must stand
    if kw_section_at(s, 0) {
        if ll < 7 {
            assert(s[ll] == 58);
            assert(false);
        }
        if 7 < ll {
            assert(s[7] == l[7]);
        } else {
            assert(s[7] == 58);
        }
        assert(!is_space(s[7]));
    }
    if kw_global_at(s, 0) {
        if ll < 6 {
            assert(s[ll] == 58);
            assert(false);
        }
        if 6 < ll {
            assert(s[6] == l[6]);
        } else {
            assert(s[6] == 58);
        }
        assert(!is_space(s[6]));
    }
    // the data shape reads the label, then demands whitespace and `db`
    assert(!is_label_cont(s[ll]));
    lemma_label_token_at(s, 0, l);
    assert(label_token(s, 0) == Some((l, j)));
    if s[j] == BYTE_NEWLINE {
        assert(!is_space(s[j]));
    } else {
        lemma_space_end_exact(s, j, j + 1);
        assert(!kw_db_at(s, j + 1));
    }
}

/// The label-only shape: its canonical text is a proper line and
/// parses back to the same structure.
#[verifier::rlimit(100)]
proof fn lemma_round_trip_label_only(src: SpecSource)
    requires
        wf_source(src),
        src.label is Some,
        src.instruction is None,
    ensures
        proper_line(reconstruct_spec(src)),
        parse_line_spec(reconstruct_spec(src)) == Some(SpecLine::Source(src)),
{
    let s = reconstruct_spec(src);
    let l = src.label->0;
    let ll = l.len() as int;
    let n = s.len() - 1;
    let j = ll + 1;
    lemma_label_bytes(l);
    assert(s =~= (l + seq![58u8]) + cmt_part(src) + seq![BYTE_NEWLINE]);
    assert(forall|k: int| 0 <= k < ll ==> s[k] == #[trigger] l[k]);
    assert(s[ll] == 58);
    let cmtlen: int = match src.comment {
        Some(cc) => 3 + cc.len() as int,
        None => 0,
    };
    assert(s.len() == ll + 1 + cmtlen + 1);
    match src.comment {
        Some(cc) => {
            assert(cmt_part(src)[0] == 32 && cmt_part(src)[1] == 59 && cmt_part(src)[2] == 32);
            assert(s[j] == 32 && s[j + 1] == 59 && s[j + 2] == 32);
            assert forall|k: int| 0 <= k < cc.len() implies s[j + 3 + k] == #[trigger] cc[k] by {
                assert(cmt_part(src)[3 + k] == cc[k]);
            };
        },
        None => {
            assert(s[j] == BYTE_NEWLINE);
        },
    }
    assert forall|k: int| 0 <= k < n implies s[k] != BYTE_NEWLINE by {
        if k < ll {
        } else if k == ll {
        } else if cmtlen > 0 && k >= j + 3 {
            let cc = src.comment->0;
            assert(s[k] == cc[k - j - 3]);
        }
    };
    assert(proper_line(s));
    assert(l =~= s.subrange(0, ll));
    assert(label_head_ctx(s, l));
    // not blank
    lemma_space_end_exact(s, 0, 0);
    assert(space_end(s, 0) != n);
    // no directive, no comment-only line, no instruction shape
    lemma_directives_fail_label_led(s, l);
    assert(s[0] != 59);
    assert(src_comment_only(s) is None);
    lemma_instruction_shape_fails_on_label(s, l);
    // the label-only shape succeeds
    assert(!is_label_cont(s[ll]));
    lemma_label_token_at(s, 0, l);
    assert(label_token(s, 0) == Some((l, j)));
    match src.comment {
        Some(cc) => {
            lemma_space_end_exact(s, j, j + 1);
            assert(comment_at(s, j + 1));
            assert(s.subrange(j + 2, n) =~= seq![32u8] + cc);
            lemma_trimmed_of_padded(cc);
            assert(comment_text(s, j + 1) == cc);
            assert(src_label_line(s) == Some(src));
        },
        None => {
            lemma_space_end_exact(s, j, j);
            assert(j == n);
            assert(src_label_line(s) == Some(src));
        },
    }
}

/// The label+instruction shape: its canonical text is a proper line
/// and parses back to the same structure.
#[verifier::rlimit(100)]
proof fn lemma_round_trip_label_instruction(src: SpecSource)
    requires
        wf_source(src),
        src.label is Some,
        src.instruction is Some,
    ensures
        proper_line(reconstruct_spec(src)),
        parse_line_spec(reconstruct_spec(src)) == Some(SpecLine::Source(src)),
{
    let s = reconstruct_spec(src);
    let l = src.label->0;
    let m = src.instruction->0;
    let ll = l.len() as int;
    let ml = m.len() as int;
    let n = s.len() - 1;
    let j = ll + 1;
    let im = j + 1;
    lemma_label_bytes(l);
    lemma_mnemonic_bytes(m);
    assert(s =~= (l + seq![58u8]) + (seq![32u8] + m) + op_part(src) + cmt_part(src) + seq![
        BYTE_NEWLINE,
    ]);
    assert(forall|k: int| 0 <= k < ll ==> s[k] == #[trigger] l[k]);
    assert(s[ll] == 58 && s[j] == 32);
    assert forall|k: int| 0 <= k < ml implies s[im + k] == #[trigger] m[k] by {
        assert(ins_part(src)[1 + k] == m[k]);
    };
    let oplen: int = match src.operand {
        Some(o) => 1 + op_seq(o).len() as int,
        None => 0,
    };
    let cmtlen: int = match src.comment {
        Some(cc) => 3 + cc.len() as int,
        None => 0,
    };
    assert(s.len() == im + ml + oplen + cmtlen + 1);
    match src.operand {
        Some(o) => {
            lemma_op_seq_bytes(o);
            assert(op_part(src)[0] == 32);
            assert(s[im + ml] == 32);
            assert forall|k: int| 0 <= k < op_seq(o).len() implies s[im + ml + 1 + k]
                == #[trigger] op_seq(o)[k] by {
                assert(op_part(src)[1 + k] == op_seq(o)[k]);
            };
            assert(op_seq(o) =~= s.subrange(im + ml + 1, im + ml + 1 + op_seq(o).len()));
        },
        None => {},
    }
    let cs = im + ml + oplen;
    match src.comment {
        Some(cc) => {
            assert(cmt_part(src)[0] == 32 && cmt_part(src)[1] == 59 && cmt_part(src)[2] == 32);
            assert(s[cs] == 32 && s[cs + 1] == 59 && s[cs + 2] == 32);
            assert forall|k: int| 0 <= k < cc.len() implies s[cs + 3 + k] == #[trigger] cc[k] by {
                assert(cmt_part(src)[3 + k] == cc[k]);
            };
            assert(cc =~= s.subrange(cs + 3, cs + 3 + cc.len()));
        },
        None => {
            assert(cs == n && s[cs] == BYTE_NEWLINE);
        },
    }
    assert(m =~= s.subrange(im, im + ml));
    // a proper line
    assert forall|k: int| 0 <= k < n implies s[k] != BYTE_NEWLINE by {
        if k < ll {
        } else if im <= k < im + ml {
            assert(s[k] == m[k - im]);
            assert(is_alnum(m[k - im]));
        } else if oplen > 0 && im + ml + 1 <= k < im + ml + oplen {
            let o = src.operand->0;
            assert(s[k] == op_seq(o)[k - im - ml - 1]);
        } else if k >= cs + 3 {
            let cc = src.comment->0;
            assert(s[k] == cc[k - cs - 3]);
        }
    };
    assert(proper_line(s));
    assert(l =~= s.subrange(0, ll));
    assert(label_head_ctx(s, l));
    // not blank
    lemma_space_end_exact(s, 0, 0);
    assert(space_end(s, 0) != n);
    // no directive, no comment-only line, no instruction shape
    assert(s[j + 1] == m[0] && !is_space(m[0]) && m[0] != 100);
    lemma_directives_fail_label_led(s, l);
    assert(s[0] != 59);
    assert(src_comment_only(s) is None);
    lemma_instruction_shape_fails_on_label(s, l);
    // the label-only shape fails: an instruction follows
    assert(!is_label_cont(s[ll]));
    lemma_label_token_at(s, 0, l);
    assert(label_token(s, 0) == Some((l, j)));
    lemma_space_end_exact(s, j, im);
    assert(!comment_at(s, im) && im != n);
    assert(src_label_line(s) is None);
    // the combined shape succeeds
    assert(mnemonic_chain_ctx(s, im, m, src.operand, src.comment));
    lemma_mnemonic_chain(s, im, m, src.operand, src.comment, Some(l));
    assert(src_label_instr_line(s) == Some(src));
}

// ---------------------------------------------------------------
// the grammar only produces well-formed source lines
// ---------------------------------------------------------------

/// Whatever the label parser returns is a valid label, and its bytes
/// stand in the input where they were read.
proof fn lemma_label_token_wf(s: Seq<u8>, i: int)
    ensures
        label_token(s, i) matches Some((name, e)) ==> wf_label(name) && i + name.len() <= s.len()
            && name == s.subrange(i, i + name.len() as int),
{
    if 0 <= i < s.len() && is_label_start(s[i]) {
        crate::lexing::lemma_label_cont_end(s, i + 1);
    }
}

/// Whatever the mnemonic parser returns is a supported spelling.
proof fn lemma_instr_token_wf(s: Seq<u8>, i: int)
    ensures
        instr_token(s, i) matches Some((m, e)) ==> m == spec_mov_name() || m
            == spec_syscall_name(),
{
    if kw_mov_at(s, i) {
        assert(s.subrange(i, i + 3) =~= spec_mov_name());
    } else if kw_syscall_at(s, i) {
        assert(s.subrange(i, i + 7) =~= spec_syscall_name());
    }
}

/// Whatever the operand parser returns is well formed: a symbol it
/// reads is a label that no register spelling opens, for the register
/// alternative was tried first at the same position and failed.
proof fn lemma_operand_token_wf(s: Seq<u8>, i: int)
    ensures
        operand_token(s, i) matches Some((o, e)) ==> wf_operand(o),
{
    match reg_token(s, i) {
        None => {},
        Some((r0, p)) => match after_comma(s, p) {
            None => {},
            Some(b) => match reg_token(s, b) {
                Some(_) => {},
                None => {
                    lemma_label_token_wf(s, b);
                    if digit_end(s, b) <= b {
                        match label_token(s, b) {
                            None => {},
                            Some((name, e)) => {
                                if reg_token(name, 0) is Some {
                                    lemma_reg_token_some_embedded(s, b, name);
                                    assert(false);
                                }
                            },
                        }
                    }
                },
            },
        },
    }
}

/// A comment the grammar reads off a proper line is trimmed and holds
/// no terminator.
proof fn lemma_comment_wf(s: Seq<u8>, k2: int)
    requires
        proper_line(s),
        comment_at(s, k2),
    ensures
        wf_comment(comment_text(s, k2)),
{
    let x = s.subrange(k2 + 1, s.len() - 1);
    crate::lexing::lemma_trimmed_is_trimmed(x);
    assert(forall|k: int| 0 <= k < x.len() ==> x[k] != BYTE_NEWLINE);
    crate::lexing::lemma_trimmed_excludes(x, BYTE_NEWLINE);
}

/// The optional-comment tail only yields well-formed comments.
proof fn lemma_src_tail_wf(
    s: Seq<u8>,
    lab: Option<Seq<u8>>,
    instr: Option<Seq<u8>>,
    op: Option<SpecOperand>,
    k: int,
)
    requires
        proper_line(s),
    ensures
        src_tail(s, lab, instr, op, k) matches Some(res) ==> res.label == lab && res.instruction
            == instr && res.operand == op && match res.comment {
            Some(c) => wf_comment(c),
            None => true,
        },
{
    let k2 = space_end(s, k);
    if comment_at(s, k2) {
        lemma_comment_wf(s, k2);
    }
}

/// Every source line the grammar produces from a proper line is well
/// formed: its tokens are valid and its shape is one of the four the
/// grammar knows.
proof fn lemma_parse_source_wf(s: Seq<u8>)
    requires
        proper_line(s),
    ensures
        parse_source_spec(s) matches Some(src) ==> wf_source(src),
{
    let i = space_end(s, 0);
    if src_comment_only(s) is Some {
        if comment_at(s, i) {
            lemma_comment_wf(s, i);
        }
    } else if src_instruction_line(s) is Some {
        lemma_instr_token_wf(s, i);
        match instr_token(s, i) {
            None => {},
            Some((name, j)) => {
                let k0 = space_end(s, j);
                lemma_operand_token_wf(s, k0);
                match operand_token(s, k0) {
                    Some((op, k1)) => {
                        lemma_src_tail_wf(s, None, Some(name), Some(op), k1);
                    },
                    None => {
                        lemma_src_tail_wf(s, None, Some(name), None, k0);
                    },
                }
            },
        }
    } else if src_label_line(s) is Some {
        lemma_label_token_wf(s, i);
        match label_token(s, i) {
            None => {},
            Some((name, j)) => {
                lemma_src_tail_wf(s, Some(name), None, None, j);
            },
        }
    } else {
        lemma_label_token_wf(s, i);
        match label_token(s, i) {
            None => {},
            Some((name, j)) => {
                let j2 = space_end(s, j);
                lemma_instr_token_wf(s, j2);
                match instr_token(s, j2) {
                    None => {},
                    Some((iname, k)) => {
                        let k0 = space_end(s, k);
                        lemma_operand_token_wf(s, k0);
                        match operand_token(s, k0) {
                            Some((op, k1)) => {
                                lemma_src_tail_wf(s, Some(name), Some(iname), Some(op), k1);
                            },
                            None => {
                                lemma_src_tail_wf(s, Some(name), Some(iname), None, k0);
                            },
                        }
                    },
                }
            },
        }
    }
}

// ---------------------------------------------------------------
// the round trip itself
// ---------------------------------------------------------------

/// Any well-formed source line, rebuilt canonically, is a proper line
/// that parses back to the very same structure.
pub proof fn lemma_reconstruct_parses_back(src: SpecSource)
    requires
        wf_source(src),
    ensures
        proper_line(reconstruct_spec(src)),
        parse_line_spec(reconstruct_spec(src)) == Some(SpecLine::Source(src)),
{
    if src.label is None && src.instruction is None {
        lemma_round_trip_comment_only(src);
    } else if src.label is None {
        lemma_round_trip_instruction(src);
    } else if src.instruction is None {
        lemma_round_trip_label_only(src);
    } else {
        lemma_round_trip_label_instruction(src);
    }
}

/// Round trip: for every source line the grammar produced, rebuilding
/// its label, instruction, operand and comment with canonical
/// separators gives a line that re-parses to an equal structure.
pub proof fn lemma_round_trip(s: Seq<u8>, src: SpecSource)
    requires
        proper_line(s),
        parse_line_spec(s) == Some(SpecLine::Source(src)),
    ensures
        proper_line(reconstruct_spec(src)),
        parse_line_spec(reconstruct_spec(src)) == Some(SpecLine::Source(src)),
{
    assert(parse_source_spec(s) == Some(src));
    lemma_parse_source_wf(s);
    lemma_reconstruct_parses_back(src);
}

} // verus!
