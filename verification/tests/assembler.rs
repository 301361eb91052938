//! Tests of the two-pass driver: the encoding table, symbol
//! resolution in both directions, the failure taxonomy, and the
//! reconstruction round trip.
use rustasm::assembler::assemble;
use rustasm::assembler::Assembler;
use rustasm::assembler::Encoded;
use rustasm::error::AsmError;
use rustasm::opcode_table::Mnemonic;
use rustasm::opcode_table::OpCodeTable;
use rustasm::opcode_table::OpCodeType;
use rustasm::opcode_table::OperandType;
use rustasm::parser::Line;
use rustasm::reconstruct::reconstruct;
use rustasm::symbol_table::SymbolTable;

fn program(lines: &[&[u8]]) -> Vec<Vec<u8>> {
    lines.iter().map(|l| l.to_vec()).collect()
}

#[test]
fn lookup_is_a_pure_function_of_the_key() {
    let mut t = OpCodeTable::new();
    t.insert(b"syscall", OpCodeType::NoOperands, vec![0x05], 2);
    t.insert(
        b"mov",
        OpCodeType::Type(OperandType::Reg32, OperandType::Imm32),
        vec![0xb8],
        5,
    );
    t.insert(
        b"mov",
        OpCodeType::Type(OperandType::Reg64, OperandType::Imm64),
        vec![0x48, 0xbe],
        10,
    );
    let narrow = Mnemonic {
        mnemonic: b"mov".to_vec(),
        mnemonic_type: OpCodeType::Type(OperandType::Reg32, OperandType::Imm32),
    };
    let wide = Mnemonic {
        mnemonic: b"mov".to_vec(),
        mnemonic_type: OpCodeType::Type(OperandType::Reg64, OperandType::Imm64),
    };
    let first = t.get(&narrow).expect("narrow mov");
    let again = t.get(&narrow).expect("narrow mov again");
    assert_eq!(first, again);
    assert_eq!(first.code, vec![0xb8]);
    assert_eq!(first.length, 5);
    let other = t.get(&wide).expect("wide mov");
    assert_eq!(other.code, vec![0x48, 0xbe]);
    assert_eq!(other.length, 10);
    assert_ne!(first.code, other.code);
    assert!(other.length > first.length);
    let absent = Mnemonic {
        mnemonic: b"mov".to_vec(),
        mnemonic_type: OpCodeType::NoOperands,
    };
    assert!(t.get(&absent).is_none());
}

#[test]
fn insert_replaces_an_entry_with_the_same_key() {
    let mut t = OpCodeTable::new();
    t.insert(b"syscall", OpCodeType::NoOperands, vec![0x05], 2);
    t.insert(b"syscall", OpCodeType::NoOperands, vec![0x0f, 0x05], 2);
    let key = Mnemonic { mnemonic: b"syscall".to_vec(), mnemonic_type: OpCodeType::NoOperands };
    assert_eq!(t.get(&key).expect("syscall").code, vec![0x0f, 0x05]);
}

#[test]
fn symbol_table_defines_and_resolves() {
    let mut st = SymbolTable::new();
    assert_eq!(st.lookup(b"start"), None);
    assert!(st.define(b"start", 0).is_ok());
    assert!(st.define(b"loop", 12).is_ok());
    assert_eq!(st.lookup(b"start"), Some(0));
    assert_eq!(st.lookup(b"loop"), Some(12));
    assert_eq!(st.lookup(b"absent"), None);
    assert_eq!(st.define(b"loop", 40), Err(AsmError::DuplicateSymbol(b"loop".to_vec())));
    assert_eq!(st.lookup(b"loop"), Some(12));
}

#[test]
fn forward_reference_resolves() {
    let records = assemble(&program(&[b"fwd: mov rax, later\n", b"later: syscall\n"]))
        .expect("forward reference must assemble");
    assert_eq!(records.len(), 2);
    // the mov occupies bytes 0..10, so `later` is address 10
    assert_eq!(records[0].address, 0);
    assert_eq!(records[0].length, 10);
    assert_eq!(records[0].code, vec![0x48, 0xbe]);
    assert_eq!(records[0].operand, Some(10));
    assert_eq!(records[1].address, 10);
    assert_eq!(records[1].length, 2);
    assert_eq!(records[1].operand, None);
}

#[test]
fn backward_reference_resolves_alike() {
    let records = assemble(&program(&[b"later: syscall\n", b"fwd: mov rax, later\n"]))
        .expect("backward reference must assemble");
    assert_eq!(records.len(), 2);
    assert_eq!(records[0].address, 0);
    assert_eq!(records[1].address, 2);
    // `later` now stands at address 0
    assert_eq!(records[1].operand, Some(0));
}

#[test]
fn duplicate_label_fails_before_pass_two() {
    let result = assemble(&program(&[b"dup: syscall\n", b"dup: syscall\n"]));
    assert_eq!(result, Err(AsmError::DuplicateSymbol(b"dup".to_vec())));
    // the same or a different instruction attached makes no difference
    let other = assemble(&program(&[b"dup: syscall\n", b"dup: mov rax, 5\n"]));
    assert_eq!(other, Err(AsmError::DuplicateSymbol(b"dup".to_vec())));
}

#[test]
fn immediate_width_selects_the_encoding() {
    let narrow = assemble(&program(&[b"mov rax, 5\n"])).expect("narrow mov");
    assert_eq!(narrow[0].code, vec![0xb8]);
    assert_eq!(narrow[0].length, 5);
    assert_eq!(narrow[0].operand, Some(5));
    let wide = assemble(&program(&[b"mov rax, 4294967296\n"])).expect("wide mov");
    assert_eq!(wide[0].code, vec![0x48, 0xbe]);
    assert_eq!(wide[0].length, 10);
    assert_eq!(wide[0].operand, Some(4294967296));
}

#[test]
fn data_directive_advances_the_location_counter() {
    let records = assemble(&program(&[b"msg db \"hi\"\n", b"after: syscall\n"]))
        .expect("data then code");
    assert_eq!(records.len(), 1);
    assert_eq!(records[0].address, 2);
    // and the data label itself resolves
    let more = assemble(&program(&[b"msg db \"hi\"\n", b"mov rax, msg\n"]))
        .expect("data label resolves");
    assert_eq!(more[0].operand, Some(0));
}

#[test]
fn metadata_directives_emit_nothing() {
    let records = assemble(&program(&[
        b"section .text\n",
        b"global _start\n",
        b"\n",
        b"; just a note\n",
        b"_start: syscall ; entry\n",
    ]))
    .expect("directives and comments assemble");
    assert_eq!(records.len(), 1);
    assert_eq!(records[0].address, 0);
}

#[test]
fn unknown_shape_is_rejected() {
    let result = assemble(&program(&[b"mov rax,rbx\n"]));
    assert_eq!(result, Err(AsmError::UnknownMnemonicOrShape(b"mov".to_vec())));
    let bare = assemble(&program(&[b"mov rax\n"]));
    assert_eq!(bare, Err(AsmError::UnknownMnemonicOrShape(b"mov".to_vec())));
}

#[test]
fn undefined_symbol_is_rejected_in_pass_two() {
    let result = assemble(&program(&[b"mov rax, nowhere\n"]));
    assert_eq!(result, Err(AsmError::UndefinedSymbol(b"nowhere".to_vec())));
}

#[test]
fn syntax_error_aborts_the_run() {
    let result = assemble(&program(&[b"syscall\n", b"???!\n"]));
    assert_eq!(result, Err(AsmError::SyntaxError(b"???!\n".to_vec())));
}

#[test]
fn passes_run_separately() {
    let lines: Vec<Line> = [
        rustasm::parser::line(b"fwd: mov rax, later\n").expect("first line"),
        rustasm::parser::line(b"later: syscall\n").expect("second line"),
    ]
    .into();
    let mut a = Assembler::new();
    a.pass1(&lines).expect("pass 1");
    let records: Vec<Encoded> = a.pass2(&lines).expect("pass 2");
    assert_eq!(records[0].operand, Some(10));
}

#[test]
fn reconstruction_round_trips() {
    let inputs: [&[u8]; 6] = [
        b"; a single comment\n",
        b"    syscall\n",
        b"mov rax,rbx ; pair\n",
        b"start: mov rax, 42 ; the answer\n",
        b"loop:\n",
        b"mov rax, jmp_target\n",
    ];
    for input in inputs {
        let parsed = match rustasm::parser::line(input).expect("parses") {
            Line::Source(src) => src,
            other => panic!("expected a source line, got {:?}", other),
        };
        let rebuilt = reconstruct(&parsed);
        let reparsed = match rustasm::parser::line(&rebuilt).expect("reparses") {
            Line::Source(src) => src,
            other => panic!("expected a source line, got {:?}", other),
        };
        assert_eq!(parsed, reparsed);
    }
}

#[test]
fn canonical_text_of_a_parsed_line() {
    let parsed = match rustasm::parser::line(b"start:   mov   rax,rbx   ; note \n").expect("parses") {
        Line::Source(src) => src,
        other => panic!("expected a source line, got {:?}", other),
    };
    assert_eq!(reconstruct(&parsed), b"start: mov rax, rbx ; note\n".to_vec());
}
