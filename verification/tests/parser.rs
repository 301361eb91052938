//! Tests of the line grammar: the source-line shapes, the directives,
//! the operand alternatives and the lexical edge cases.
use rustasm::parser::source;
use rustasm::parser::Directive;
use rustasm::parser::Line;
use rustasm::parser::Operand;
use rustasm::parser::Register;
use rustasm::parser::Source;
use rustasm::error::AsmError;

fn wrap_done(
    label: Option<&[u8]>,
    instructions: Option<&[u8]>,
    operand: Option<Operand>,
    comment: Option<&[u8]>,
) -> Option<Source> {
    Some(Source::new(label, instructions, operand, comment))
}

#[test]
fn parser_test_comment() {
    assert_eq!(source(b"; a single comment\n"), wrap_done(None, None, None, Some(b"a single comment")));
}

#[test]
fn parser_test_comment_leading_whitespace() {
    assert_eq!(source(b" \t ; a single comment\n"), wrap_done(None, None, None, Some(b"a single comment")));
}

#[test]
fn parser_test_instruction() {
    assert_eq!(
        source(b"syscall ; single instruction\n"),
        wrap_done(None, Some(b"syscall"), None, Some(b"single instruction"))
    );
}

#[test]
fn parser_test_instruction_operand() {
    assert_eq!(
        source(b"mov rax,rbx ; instruction\n"),
        wrap_done(
            None,
            Some(b"mov"),
            Some(Operand::RegisterPair(Register::RAX, Register::RBX)),
            Some(b"instruction")
        )
    );
}

#[test]
fn parser_test_label_instruction() {
    assert_eq!(
        source(b"start: syscall ; instruction\n"),
        wrap_done(Some(b"start"), Some(b"syscall"), None, Some(b"instruction"))
    );
}

#[test]
fn parser_test_label_instruction_operand() {
    assert_eq!(
        source(b"start: mov rax,rbx ; instruction\n"),
        wrap_done(
            Some(b"start"),
            Some(b"mov"),
            Some(Operand::RegisterPair(Register::RAX, Register::RBX)),
            Some(b"instruction")
        )
    );
}

#[test]
fn parser_test_space_instruction() {
    assert_eq!(source(b"    syscall\n"), wrap_done(None, Some(b"syscall"), None, None));
}

fn line_done(
    label: Option<&[u8]>,
    instructions: Option<&[u8]>,
    operand: Option<Operand>,
    comment: Option<&[u8]>,
) -> Result<Line, AsmError> {
    Ok(Line::Source(Source::new(label, instructions, operand, comment)))
}

#[test]
fn nom_test_comment() {
    assert_eq!(rustasm::parser::line(b"; a single comment\n"), line_done(None, None, None, Some(b"a single comment")));
}

#[test]
fn nom_test_comment_leading_whitespace() {
    assert_eq!(rustasm::parser::line(b" \t ; a single comment\n"), line_done(None, None, None, Some(b"a single comment")));
}

#[test]
fn nom_test_instruction() {
    assert_eq!(
        rustasm::parser::line(b"syscall ; single instruction\n"),
        line_done(None, Some(b"syscall"), None, Some(b"single instruction"))
    );
}

#[test]
fn nom_test_instruction_operand() {
    assert_eq!(
        rustasm::parser::line(b"mov rax,rbx ; instruction\n"),
        line_done(
            None,
            Some(b"mov"),
            Some(Operand::RegisterPair(Register::RAX, Register::RBX)),
            Some(b"instruction")
        )
    );
}

#[test]
fn nom_test_label_instruction() {
    assert_eq!(
        rustasm::parser::line(b"start: syscall ; instruction\n"),
        line_done(Some(b"start"), Some(b"syscall"), None, Some(b"instruction"))
    );
}

#[test]
fn nom_test_label_instruction_operand() {
    assert_eq!(
        rustasm::parser::line(b"start: mov rax,rbx ; instruction\n"),
        line_done(
            Some(b"start"),
            Some(b"mov"),
            Some(Operand::RegisterPair(Register::RAX, Register::RBX)),
            Some(b"instruction")
        )
    );
}

#[test]
fn nom_test_space_instruction() {
    assert_eq!(rustasm::parser::line(b"    syscall\n"), line_done(None, Some(b"syscall"), None, None));
}

#[test]
fn blank_lines() {
    assert_eq!(rustasm::parser::line(b"\n"), Ok(Line::Blank));
    assert_eq!(rustasm::parser::line(b" \t  \n"), Ok(Line::Blank));
}

#[test]
fn parse_is_deterministic() {
    let input: &[u8] = b"start: mov rax, 42 ; boot\n";
    assert_eq!(rustasm::parser::line(input), rustasm::parser::line(input));
    assert_eq!(source(input), source(input));
}

#[test]
fn syntax_error_carries_the_line() {
    let input: &[u8] = b"mov rax, +5\n";
    assert_eq!(rustasm::parser::line(input), Err(AsmError::SyntaxError(input.to_vec())));
}

#[test]
fn register_immediate_operand() {
    assert_eq!(
        rustasm::parser::line(b"mov rax, 42\n"),
        line_done(None, Some(b"mov"), Some(Operand::RegisterImmediate(Register::RAX, 42)), None)
    );
}

#[test]
fn register_immediate_u64_boundary() {
    assert_eq!(
        rustasm::parser::line(b"mov rax, 18446744073709551615\n"),
        line_done(
            None,
            Some(b"mov"),
            Some(Operand::RegisterImmediate(Register::RAX, u64::MAX)),
            None
        )
    );
}

#[test]
fn integer_overflow_is_a_syntax_error() {
    // the immediate alternative fails without panicking; no other
    // shape fits, so the line is rejected with its raw text
    let input: &[u8] = b"mov rax, 18446744073709551616\n";
    assert_eq!(rustasm::parser::line(input), Err(AsmError::SyntaxError(input.to_vec())));
}

#[test]
fn register_symbol_operand() {
    assert_eq!(
        rustasm::parser::line(b"mov rax, jmp_target\n"),
        line_done(
            None,
            Some(b"mov"),
            Some(Operand::RegisterSymbol(Register::RAX, b"jmp_target".to_vec())),
            None
        )
    );
}

#[test]
fn all_sixteen_registers_parse() {
    let spellings: [(&[u8], Register); 16] = [
        (b"rax", Register::RAX),
        (b"rbx", Register::RBX),
        (b"rcx", Register::RCX),
        (b"rdx", Register::RDX),
        (b"rbp", Register::RBP),
        (b"rsp", Register::RSP),
        (b"rsi", Register::RSI),
        (b"rdi", Register::RDI),
        (b"r8", Register::R8),
        (b"r9", Register::R9),
        (b"r10", Register::R10),
        (b"r11", Register::R11),
        (b"r12", Register::R12),
        (b"r13", Register::R13),
        (b"r14", Register::R14),
        (b"r15", Register::R15),
    ];
    for (name, reg) in spellings {
        let mut input = b"mov ".to_vec();
        input.extend_from_slice(name);
        input.extend_from_slice(b", 1\n");
        assert_eq!(
            rustasm::parser::line(&input),
            line_done(None, Some(b"mov"), Some(Operand::RegisterImmediate(reg, 1)), None)
        );
    }
}

#[test]
fn label_only_line() {
    assert_eq!(rustasm::parser::line(b"loop:\n"), line_done(Some(b"loop"), None, None, None));
    assert_eq!(rustasm::parser::line(b"loop: ; note\n"), line_done(Some(b"loop"), None, None, Some(b"note")));
}

#[test]
fn empty_comment_text() {
    assert_eq!(rustasm::parser::line(b";\n"), line_done(None, None, None, Some(b"")));
    assert_eq!(rustasm::parser::line(b"; \t \n"), line_done(None, None, None, Some(b"")));
}

#[test]
fn section_directive() {
    assert_eq!(
        rustasm::parser::line(b"section .text\n"),
        Ok(Line::Directive(Directive::Section(b".text".to_vec())))
    );
    assert_eq!(
        rustasm::parser::line(b"section data\n"),
        Ok(Line::Directive(Directive::Section(b"data".to_vec())))
    );
}

#[test]
fn global_directive() {
    assert_eq!(
        rustasm::parser::line(b"global _start\n"),
        Ok(Line::Directive(Directive::Global(b"_start".to_vec())))
    );
}

#[test]
fn data_directive_binds_its_label() {
    assert_eq!(
        rustasm::parser::line(b"msg db \"hello world\"\n"),
        Ok(Line::Directive(Directive::Data(b"hello world".to_vec(), Some(b"msg".to_vec()))))
    );
    assert_eq!(
        rustasm::parser::line(b"msg: db \"hi\"\n"),
        Ok(Line::Directive(Directive::Data(b"hi".to_vec(), Some(b"msg".to_vec()))))
    );
}

#[test]
fn label_with_leading_punctuation() {
    assert_eq!(rustasm::parser::line(b".here:\n"), line_done(Some(b".here"), None, None, None));
    assert_eq!(rustasm::parser::line(b"_start: syscall ; go\n"), line_done(Some(b"_start"), Some(b"syscall"), None, Some(b"go")));
}

#[test]
fn register_from_bytes() {
    assert_eq!(Register::from_bytes(b"rax"), Register::RAX);
    assert_eq!(Register::from_bytes(b"rsp"), Register::RSP);
    assert_eq!(Register::from_bytes(b"r15"), Register::R15);
}

#[test]
fn label_instruction_without_comment() {
    assert_eq!(
        rustasm::parser::line(b"fwd: mov rax, later\n"),
        line_done(
            Some(b"fwd"),
            Some(b"mov"),
            Some(Operand::RegisterSymbol(Register::RAX, b"later".to_vec())),
            None
        )
    );
}

#[test]
fn section_needs_a_name() {
    let input: &[u8] = b"section .\n";
    assert_eq!(rustasm::parser::line(input), Err(AsmError::SyntaxError(input.to_vec())));
    assert_eq!(
        rustasm::parser::line(b"section .a \n"),
        Ok(Line::Directive(Directive::Section(b".a".to_vec())))
    );
}
