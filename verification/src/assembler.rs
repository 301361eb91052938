//! The two-pass driver.  Pass 1 walks the parsed lines, records every
//! label's address under a running location counter and checks that
//! every instruction has an encoding; pass 2 re-walks the same lines,
//! resolves symbol operands against the finished symbol table and emits
//! the final encoding records.  Both passes are proved equal to
//! spec-level folds over the line sequence.
use vstd::prelude::*;

use crate::error::AsmError;
use crate::error::SpecAsmError;
use crate::opcode_table::Mnemonic;
use crate::opcode_table::OpCodeTable;
use crate::opcode_table::OpCodeType;
use crate::opcode_table::OperandType;
use crate::opcode_table::SpecMnemonic;
use crate::opcode_table::SpecOpCode;
use crate::parser::Directive;
use crate::parser::Line;
use crate::parser::Operand;
use crate::parser::SpecDirective;
use crate::parser::SpecLine;
use crate::parser::SpecOperand;
use crate::parser::parse_line_spec;
use crate::parser::spec_mov_name;
use crate::parser::spec_syscall_name;
use crate::parser::proper_line;
use crate::symbol_table::SymbolTable;

verus! {

broadcast use vstd::slice::group_slice_axioms;

// ---------------------------------------------------------------
// the encoding record that pass 2 emits
// ---------------------------------------------------------------

/// Spec-level model of [`Encoded`].
pub ghost struct SpecEncoded {
    pub address: u64,
    pub code: Seq<u8>,
    pub length: usize,
    pub operand: Option<u64>,
}

/// One resolved source line, ready for the object emitter: the opcode
/// bytes and authoritative length from the encoding table, the line's
/// address, and the resolved numeric operand (an immediate's value or a
/// symbol's address), when the operand encodes one.
#[derive(Debug, PartialEq, Eq, Clone)]
pub struct Encoded {
    /// The location counter at this instruction.
    pub address: u64,
    /// The opcode byte sequence from the encoding table.
    pub code: Vec<u8>,
    /// The full encoded size; the location counter advances by it.
    pub length: usize,
    /// The resolved numeric operand, when the operand carries one.
    pub operand: Option<u64>,
}

impl View for Encoded {
    type V = SpecEncoded;

    open spec fn view(&self) -> SpecEncoded {
        SpecEncoded {
            address: self.address,
            code: self.code@,
            length: self.length,
            operand: self.operand,
        }
    }
}

impl DeepView for Encoded {
    type V = SpecEncoded;

    open spec fn deep_view(&self) -> SpecEncoded {
        self.view()
    }
}

// ---------------------------------------------------------------
// operand shapes and line sizes
// ---------------------------------------------------------------

/// The operand shape that selects an encoding-table entry for a decoded
/// operand.  The registers are 64-bit; an immediate that fits 32 bits
/// selects the compact 32-bit form, a wider one the 64-bit form, and a
/// symbol stands for a 64-bit address.  A bare register has no shape in
/// the table's key space.
pub open spec fn spec_shape_of(op: Option<SpecOperand>) -> Option<OpCodeType> {
    match op {
        None => Some(OpCodeType::NoOperands),
        Some(SpecOperand::Register(_)) => None,
        Some(SpecOperand::RegisterPair(_, _)) => Some(
            OpCodeType::Type(OperandType::Reg64, OperandType::Reg64),
        ),
        Some(SpecOperand::RegisterImmediate(_, v)) => if v <= u32::MAX {
            Some(OpCodeType::Type(OperandType::Reg32, OperandType::Imm32))
        } else {
            Some(OpCodeType::Type(OperandType::Reg64, OperandType::Imm64))
        },
        Some(SpecOperand::RegisterSymbol(_, _)) => Some(
            OpCodeType::Type(OperandType::Reg64, OperandType::Imm64),
        ),
    }
}

/// Executable twin of [`spec_shape_of`].
pub fn shape_of(op: &Option<Operand>) -> (r: Option<OpCodeType>)
    ensures
        r == spec_shape_of(op.deep_view()),
{
    match op {
        None => Some(OpCodeType::NoOperands),
        Some(Operand::Register(_)) => None,
        Some(Operand::RegisterPair(_, _)) => Some(
            OpCodeType::Type(OperandType::Reg64, OperandType::Reg64),
        ),
        Some(Operand::RegisterImmediate(_, v)) => if *v <= u32::MAX as u64 {
            Some(OpCodeType::Type(OperandType::Reg32, OperandType::Imm32))
        } else {
            Some(OpCodeType::Type(OperandType::Reg64, OperandType::Imm64))
        },
        Some(Operand::RegisterSymbol(_, _)) => Some(
            OpCodeType::Type(OperandType::Reg64, OperandType::Imm64),
        ),
    }
}

/// The label a line defines, if any: a source line's label, or the
/// label a data directive binds to the start of its bytes.
pub open spec fn spec_label_of(l: SpecLine) -> Option<Seq<u8>> {
    match l {
        SpecLine::Source(src) => src.label,
        SpecLine::Directive(SpecDirective::Data(_, lab)) => lab,
        _ => None,
    }
}

/// The number of bytes a line contributes to the location counter:
/// the table's authoritative length for an instruction line, the
/// literal byte length for a data directive, zero for everything else.
/// An instruction whose mnemonic and shape the table does not know has
/// no size: that is the unknown-mnemonic failure.
pub open spec fn spec_line_size(t: Map<SpecMnemonic, SpecOpCode>, l: SpecLine) -> Result<
    int,
    SpecAsmError,
> {
    match l {
        SpecLine::Blank => Ok(0),
        SpecLine::Directive(SpecDirective::Section(_)) => Ok(0),
        SpecLine::Directive(SpecDirective::Global(_)) => Ok(0),
        SpecLine::Directive(SpecDirective::Data(bytes, _)) => Ok(bytes.len() as int),
        SpecLine::Source(src) => match src.instruction {
            None => Ok(0),
            Some(name) => match spec_shape_of(src.operand) {
                None => Err(SpecAsmError::UnknownMnemonicOrShape(name)),
                Some(shape) => {
                    let key = SpecMnemonic { mnemonic: name, mnemonic_type: shape };
                    if t.contains_key(key) {
                        Ok(t[key].length as int)
                    } else {
                        Err(SpecAsmError::UnknownMnemonicOrShape(name))
                    }
                },
            },
        },
    }
}

// ---------------------------------------------------------------
// pass 1 as a fold
// ---------------------------------------------------------------

/// Pass-1 step for one line: register the label it defines (a name
/// defined twice is the duplicate-symbol failure), then advance the
/// location counter by the line's size, failing when the counter would
/// leave the 64-bit range.
pub open spec fn spec_line1(
    t: Map<SpecMnemonic, SpecOpCode>,
    l: SpecLine,
    st: Map<Seq<u8>, u64>,
    lc: int,
) -> Result<(Map<Seq<u8>, u64>, int), SpecAsmError> {
    let defined = match spec_label_of(l) {
        Some(name) => if st.contains_key(name) {
            Err(SpecAsmError::DuplicateSymbol(name))
        } else {
            Ok(st.insert(name, lc as u64))
        },
        None => Ok(st),
    };
    match defined {
        Err(e) => Err(e),
        Ok(st2) => match spec_line_size(t, l) {
            Err(e) => Err(e),
            Ok(sz) => if lc + sz > u64::MAX {
                Err(SpecAsmError::AddressOverflow)
            } else {
                Ok((st2, lc + sz))
            },
        },
    }
}

/// Pass 1 over a line sequence: the left-to-right fold of
/// [`spec_line1`], yielding the finished symbol table and the final
/// location counter, or the first failure.
pub open spec fn spec_pass1(
    t: Map<SpecMnemonic, SpecOpCode>,
    lines: Seq<SpecLine>,
    st: Map<Seq<u8>, u64>,
    lc: int,
) -> Result<(Map<Seq<u8>, u64>, int), SpecAsmError>
    decreases lines.len(),
{
    if lines.len() == 0 {
        Ok((st, lc))
    } else {
        match spec_line1(t, lines[0], st, lc) {
            Err(e) => Err(e),
            Ok((st2, lc2)) => spec_pass1(t, lines.skip(1), st2, lc2),
        }
    }
}

// ---------------------------------------------------------------
// pass 2 as a fold
// ---------------------------------------------------------------

/// Pass-2 step for one line: an instruction line is resolved against
/// the symbol table (an unresolvable symbol is the undefined-symbol
/// failure) and emits one encoding record; every other line emits
/// nothing.  The location counter advances exactly as in pass 1.
pub open spec fn spec_encode1(
    t: Map<SpecMnemonic, SpecOpCode>,
    st: Map<Seq<u8>, u64>,
    l: SpecLine,
    lc: int,
) -> Result<(Option<SpecEncoded>, int), SpecAsmError> {
    match l {
        SpecLine::Blank => Ok((None, lc)),
        SpecLine::Directive(SpecDirective::Section(_)) => Ok((None, lc)),
        SpecLine::Directive(SpecDirective::Global(_)) => Ok((None, lc)),
        SpecLine::Directive(SpecDirective::Data(bytes, _)) => if lc + bytes.len() > u64::MAX {
            Err(SpecAsmError::AddressOverflow)
        } else {
            Ok((None, lc + bytes.len()))
        },
        SpecLine::Source(src) => match src.instruction {
            None => Ok((None, lc)),
            Some(name) => match spec_shape_of(src.operand) {
                None => Err(SpecAsmError::UnknownMnemonicOrShape(name)),
                Some(shape) => {
                    let key = SpecMnemonic { mnemonic: name, mnemonic_type: shape };
                    if !t.contains_key(key) {
                        Err(SpecAsmError::UnknownMnemonicOrShape(name))
                    } else {
                        let opc = t[key];
                        let resolved = match src.operand {
                            Some(SpecOperand::RegisterImmediate(_, v)) => Ok(Some(v)),
                            Some(SpecOperand::RegisterSymbol(_, nm)) => if st.contains_key(nm) {
                                Ok(Some(st[nm]))
                            } else {
                                Err(SpecAsmError::UndefinedSymbol(nm))
                            },
                            _ => Ok(None),
                        };
                        match resolved {
                            Err(e) => Err(e),
                            Ok(opv) => if lc + opc.length > u64::MAX {
                                Err(SpecAsmError::AddressOverflow)
                            } else {
                                Ok(
                                    (
                                        Some(
                                            SpecEncoded {
                                                address: lc as u64,
                                                code: opc.code,
                                                length: opc.length,
                                                operand: opv,
                                            },
                                        ),
                                        lc + opc.length,
                                    ),
                                )
                            },
                        }
                    }
                },
            },
        },
    }
}

/// Pass 2 over a line sequence: the concatenation of the records the
/// steps emit, or the first failure.
pub open spec fn spec_pass2(
    t: Map<SpecMnemonic, SpecOpCode>,
    st: Map<Seq<u8>, u64>,
    lines: Seq<SpecLine>,
    lc: int,
) -> Result<Seq<SpecEncoded>, SpecAsmError>
    decreases lines.len(),
{
    if lines.len() == 0 {
        Ok(Seq::empty())
    } else {
        match spec_encode1(t, st, lines[0], lc) {
            Err(e) => Err(e),
            Ok((opt, lc2)) => match spec_pass2(t, st, lines.skip(1), lc2) {
                Err(e) => Err(e),
                Ok(rest) => Ok(
                    match opt {
                        Some(enc) => seq![enc] + rest,
                        None => rest,
                    },
                ),
            },
        }
    }
}

// ---------------------------------------------------------------
// the assembler
// ---------------------------------------------------------------

/// Spec-level state of an [`Assembler`].
pub ghost struct SpecAssembler {
    pub location_counter: u64,
    pub table: Map<SpecMnemonic, SpecOpCode>,
    pub symbols: Map<Seq<u8>, u64>,
}

/// The minimal encoding table an assembler starts with.
pub open spec fn initial_table() -> Map<SpecMnemonic, SpecOpCode> {
    Map::empty().insert(
        SpecMnemonic { mnemonic: spec_syscall_name(), mnemonic_type: OpCodeType::NoOperands },
        SpecOpCode { code: seq![5u8], length: 2 },
    ).insert(
        SpecMnemonic {
            mnemonic: spec_mov_name(),
            mnemonic_type: OpCodeType::Type(OperandType::Reg32, OperandType::Imm32),
        },
        SpecOpCode { code: seq![184u8], length: 5 },
    ).insert(
        SpecMnemonic {
            mnemonic: spec_mov_name(),
            mnemonic_type: OpCodeType::Type(OperandType::Reg64, OperandType::Imm64),
        },
        SpecOpCode { code: seq![72u8, 190u8], length: 10 },
    )
}

fn mov_name() -> (v: Vec<u8>)
    ensures
        v@ == spec_mov_name(),
{
    let mut v: Vec<u8> = Vec::new();
    v.push(109);
    v.push(111);
    v.push(118);
    proof {
        assert(v@ =~= spec_mov_name());
    }
    v
}

fn syscall_name() -> (v: Vec<u8>)
    ensures
        v@ == spec_syscall_name(),
{
    let mut v: Vec<u8> = Vec::new();
    v.push(115);
    v.push(121);
    v.push(115);
    v.push(99);
    v.push(97);
    v.push(108);
    v.push(108);
    proof {
        assert(v@ =~= spec_syscall_name());
    }
    v
}

/// The assembler state for one run: the read-only encoding table, the
/// symbol table pass 1 fills, and the pass-1 location counter.
pub struct Assembler {
    location_counter: u64,
    op_code_table: OpCodeTable,
    symbol_table: SymbolTable,
}

impl View for Assembler {
    type V = SpecAssembler;

    closed spec fn view(&self) -> SpecAssembler {
        SpecAssembler {
            location_counter: self.location_counter,
            table: self.op_code_table@,
            symbols: self.symbol_table@,
        }
    }
}

impl Assembler {
    /// A fresh assembler: location counter zero, no symbols, and the
    /// minimal encoding table.
    pub fn new() -> (a: Assembler)
        ensures
            a@.location_counter == 0,
            a@.symbols == Map::<Seq<u8>, u64>::empty(),
            a@.table == initial_table(),
    {
        let mut t = OpCodeTable::new();
        let mut code_syscall: Vec<u8> = Vec::new();
        code_syscall.push(5);
        let mut code_mov32: Vec<u8> = Vec::new();
        code_mov32.push(184);
        let mut code_mov64: Vec<u8> = Vec::new();
        code_mov64.push(72);
        code_mov64.push(190);
        proof {
            assert(code_syscall@ =~= seq![5u8]);
            assert(code_mov32@ =~= seq![184u8]);
            assert(code_mov64@ =~= seq![72u8, 190u8]);
        }
        let syscall = syscall_name();
        let mov = mov_name();
        t.insert(syscall.as_slice(), OpCodeType::NoOperands, code_syscall, 2);
        t.insert(
            mov.as_slice(),
            OpCodeType::Type(OperandType::Reg32, OperandType::Imm32),
            code_mov32,
            5,
        );
        t.insert(
            mov.as_slice(),
            OpCodeType::Type(OperandType::Reg64, OperandType::Imm64),
            code_mov64,
            10,
        );
        Assembler { location_counter: 0, op_code_table: t, symbol_table: SymbolTable::new() }
    }

    /// The size of one line under this assembler's encoding table.
    fn line_size(&self, l: &Line) -> (r: Result<usize, AsmError>)
        ensures
            match r {
                Ok(sz) => spec_line_size(self@.table, l.deep_view()) == Ok::<int, SpecAsmError>(
                    sz as int,
                ),
                Err(e) => spec_line_size(self@.table, l.deep_view()) == Err::<int, SpecAsmError>(
                    e@,
                ),
            },
    {
        match l {
            Line::Blank => Ok(0),
            Line::Directive(Directive::Section(_)) => Ok(0),
            Line::Directive(Directive::Global(_)) => Ok(0),
            Line::Directive(Directive::Data(bytes, _)) => Ok(bytes.len()),
            Line::Source(src) => match &src.instruction {
                None => Ok(0),
                Some(name) => match shape_of(&src.operand) {
                    None => Err(
                        AsmError::UnknownMnemonicOrShape(vstd::slice::slice_to_vec(name.as_slice())),
                    ),
                    Some(shape) => {
                        let key = Mnemonic {
                            mnemonic: vstd::slice::slice_to_vec(name.as_slice()),
                            mnemonic_type: shape,
                        };
                        match self.op_code_table.get(&key) {
                            Some(op) => Ok(op.length),
                            None => Err(
                                AsmError::UnknownMnemonicOrShape(
                                    vstd::slice::slice_to_vec(name.as_slice()),
                                ),
                            ),
                        }
                    },
                },
            },
        }
    }

    /// Pass-1 processing of one directive: bind a data directive's label
    /// to the current location counter and advance the counter by the
    /// directive's size.
    pub fn directive(&mut self, d: &Directive) -> (r: Result<(), AsmError>)
        ensures
            final(self)@.table == old(self)@.table,
            match r {
                Ok(()) => spec_line1(
                    old(self)@.table,
                    SpecLine::Directive(d.deep_view()),
                    old(self)@.symbols,
                    old(self)@.location_counter as int,
                ) == Ok::<_, SpecAsmError>(
                    (final(self)@.symbols, final(self)@.location_counter as int),
                ),
                Err(e) => spec_line1(
                    old(self)@.table,
                    SpecLine::Directive(d.deep_view()),
                    old(self)@.symbols,
                    old(self)@.location_counter as int,
                ) is Err && spec_line1(
                    old(self)@.table,
                    SpecLine::Directive(d.deep_view()),
                    old(self)@.symbols,
                    old(self)@.location_counter as int,
                )->Err_0 == e@,
            },
    {
        match d {
            Directive::Section(_) => Ok(()),
            Directive::Global(_) => Ok(()),
            Directive::Data(bytes, lab) => {
                if let Some(name) = lab {
                    let defined = self.symbol_table.define(name.as_slice(), self.location_counter);
                    if let Err(e) = defined {
                        return Err(e);
                    }
                }
                let sz = bytes.len();
                if sz as u64 > u64::MAX - self.location_counter {
                    return Err(AsmError::AddressOverflow);
                }
                self.location_counter = self.location_counter + sz as u64;
                Ok(())
            },
        }
    }

    /// Pass-1 processing of one line, as [`spec_line1`] describes it.
    fn step_line(&mut self, l: &Line) -> (r: Result<(), AsmError>)
        ensures
            final(self)@.table == old(self)@.table,
            match r {
                Ok(()) => spec_line1(
                    old(self)@.table,
                    l.deep_view(),
                    old(self)@.symbols,
                    old(self)@.location_counter as int,
                ) == Ok::<_, SpecAsmError>(
                    (final(self)@.symbols, final(self)@.location_counter as int),
                ),
                Err(e) => spec_line1(
                    old(self)@.table,
                    l.deep_view(),
                    old(self)@.symbols,
                    old(self)@.location_counter as int,
                ) is Err && spec_line1(
                    old(self)@.table,
                    l.deep_view(),
                    old(self)@.symbols,
                    old(self)@.location_counter as int,
                )->Err_0 == e@,
            },
    {
        match l {
            Line::Blank => Ok(()),
            Line::Directive(d) => self.directive(d),
            Line::Source(src) => {
                if let Some(name) = &src.label {
                    let defined = self.symbol_table.define(name.as_slice(), self.location_counter);
                    if let Err(e) = defined {
                        return Err(e);
                    }
                }
                let sized = self.line_size(l);
                match sized {
                    Err(e) => Err(e),
                    Ok(sz) => {
                        if sz as u64 > u64::MAX - self.location_counter {
                            return Err(AsmError::AddressOverflow);
                        }
                        self.location_counter = self.location_counter + sz as u64;
                        Ok(())
                    },
                }
            },
        }
    }

    /// Pass 1: walk the parsed lines, record every label's address and
    /// advance the location counter, exactly as the [`spec_pass1`] fold
    /// over the lines from this assembler's state describes.
    pub fn pass1(&mut self, lines: &Vec<Line>) -> (r: Result<(), AsmError>)
        ensures
            final(self)@.table == old(self)@.table,
            match r {
                Ok(()) => spec_pass1(
                    old(self)@.table,
                    lines.deep_view(),
                    old(self)@.symbols,
                    old(self)@.location_counter as int,
                ) == Ok::<_, SpecAsmError>(
                    (final(self)@.symbols, final(self)@.location_counter as int),
                ),
                Err(e) => spec_pass1(
                    old(self)@.table,
                    lines.deep_view(),
                    old(self)@.symbols,
                    old(self)@.location_counter as int,
                ) is Err && spec_pass1(
                    old(self)@.table,
                    lines.deep_view(),
                    old(self)@.symbols,
                    old(self)@.location_counter as int,
                )->Err_0 == e@,
            },
    {
        let ghost t = old(self)@.table;
        let ghost ldv = lines.deep_view();
        let ghost st0 = old(self)@.symbols;
        let ghost lc0 = old(self)@.location_counter as int;
        let mut i: usize = 0;
        proof {
            assert(ldv.skip(0) =~= ldv);
        }
        while i < lines.len()
            invariant
                i <= lines@.len(),
                ldv == lines.deep_view(),
                ldv.len() == lines@.len(),
                t == old(self)@.table,
                st0 == old(self)@.symbols,
                lc0 == old(self)@.location_counter as int,
                self@.table == t,
                spec_pass1(t, ldv, st0, lc0) == spec_pass1(
                    t,
                    ldv.skip(i as int),
                    self@.symbols,
                    self@.location_counter as int,
                ),
            decreases lines@.len() - i,
        {
            let ghost rem = ldv.skip(i as int);
            proof {
                assert(rem[0] == ldv[i as int]);
                assert(ldv[i as int] == lines@[i as int].deep_view());
                assert(rem.skip(1) =~= ldv.skip(i as int + 1));
            }
            let stepped = self.step_line(&lines[i]);
            if let Err(e) = stepped {
                return Err(e);
            }
            i = i + 1;
        }
        proof {
            assert(ldv.skip(i as int) =~= Seq::<SpecLine>::empty());
        }
        Ok(())
    }

    /// Pass-2 processing of one line at address `lc`, as
    /// [`spec_encode1`] describes it.
    fn encode_line(&self, l: &Line, lc: u64) -> (r: Result<(Option<Encoded>, u64), AsmError>)
        ensures
            match r {
                Ok((opt, lc2)) => spec_encode1(self@.table, self@.symbols, l.deep_view(), lc as int)
                    == Ok::<_, SpecAsmError>((opt.deep_view(), lc2 as int)),
                Err(e) => spec_encode1(self@.table, self@.symbols, l.deep_view(), lc as int)
                    is Err && spec_encode1(
                    self@.table,
                    self@.symbols,
                    l.deep_view(),
                    lc as int,
                )->Err_0 == e@,
            },
    {
        match l {
            Line::Blank => Ok((None, lc)),
            Line::Directive(Directive::Section(_)) => Ok((None, lc)),
            Line::Directive(Directive::Global(_)) => Ok((None, lc)),
            Line::Directive(Directive::Data(bytes, _)) => {
                let sz = bytes.len();
                if sz as u64 > u64::MAX - lc {
                    Err(AsmError::AddressOverflow)
                } else {
                    Ok((None, lc + sz as u64))
                }
            },
            Line::Source(src) => match &src.instruction {
                None => Ok((None, lc)),
                Some(name) => match shape_of(&src.operand) {
                    None => Err(
                        AsmError::UnknownMnemonicOrShape(vstd::slice::slice_to_vec(name.as_slice())),
                    ),
                    Some(shape) => {
                        let key = Mnemonic {
                            mnemonic: vstd::slice::slice_to_vec(name.as_slice()),
                            mnemonic_type: shape,
                        };
                        match self.op_code_table.get(&key) {
                            None => Err(
                                AsmError::UnknownMnemonicOrShape(
                                    vstd::slice::slice_to_vec(name.as_slice()),
                                ),
                            ),
                            Some(op) => {
                                let resolved: Option<u64> = match &src.operand {
                                    Some(Operand::RegisterImmediate(_, v)) => Some(*v),
                                    Some(Operand::RegisterSymbol(_, nm)) => {
                                        match self.symbol_table.lookup(nm.as_slice()) {
                                            Some(a) => Some(a),
                                            None => {
                                                return Err(
                                                    AsmError::UndefinedSymbol(
                                                        vstd::slice::slice_to_vec(nm.as_slice()),
                                                    ),
                                                );
                                            },
                                        }
                                    },
                                    _ => None,
                                };
                                let sz = op.length;
                                if sz as u64 > u64::MAX - lc {
                                    Err(AsmError::AddressOverflow)
                                } else {
                                    let enc = Encoded {
                                        address: lc,
                                        code: vstd::slice::slice_to_vec(op.code.as_slice()),
                                        length: op.length,
                                        operand: resolved,
                                    };
                                    Ok((Some(enc), lc + sz as u64))
                                }
                            },
                        }
                    },
                },
            },
        }
    }

    /// Pass 2: re-walk the parsed lines from address zero, resolve every
    /// symbol operand against the finished symbol table and collect the
    /// emitted records, exactly as the [`spec_pass2`] fold describes.
    /// The symbol table is read-only here: forward references resolve
    /// because pass 1 has already assigned every label its address.
    pub fn pass2(&self, lines: &Vec<Line>) -> (r: Result<Vec<Encoded>, AsmError>)
        ensures
            match r {
                Ok(v) => spec_pass2(self@.table, self@.symbols, lines.deep_view(), 0) == Ok::<
                    _,
                    SpecAsmError,
                >(v.deep_view()),
                Err(e) => spec_pass2(self@.table, self@.symbols, lines.deep_view(), 0) is Err
                    && spec_pass2(self@.table, self@.symbols, lines.deep_view(), 0)->Err_0 == e@,
            },
    {
        let ghost t = self@.table;
        let ghost st = self@.symbols;
        let ghost ldv = lines.deep_view();
        let mut out: Vec<Encoded> = Vec::new();
        let mut lc: u64 = 0;
        let mut i: usize = 0;
        proof {
            assert(out.deep_view() =~= Seq::<SpecEncoded>::empty());
            assert(ldv.skip(0) =~= ldv);
            match spec_pass2(t, st, ldv, 0) {
                Ok(rest) => {
                    assert(out.deep_view() + rest =~= rest);
                },
                Err(_) => {},
            }
        }
        while i < lines.len()
            invariant
                i <= lines@.len(),
                ldv == lines.deep_view(),
                ldv.len() == lines@.len(),
                t == self@.table,
                st == self@.symbols,
                match spec_pass2(t, st, ldv.skip(i as int), lc as int) {
                    Ok(rest) => spec_pass2(t, st, ldv, 0) == Ok::<_, SpecAsmError>(
                        out.deep_view() + rest,
                    ),
                    Err(e) => spec_pass2(t, st, ldv, 0) == Err::<Seq<SpecEncoded>, _>(e),
                },
            decreases lines@.len() - i,
        {
            let ghost rem = ldv.skip(i as int);
            let ghost out_before = out.deep_view();
            proof {
                assert(rem[0] == ldv[i as int]);
                assert(ldv[i as int] == lines@[i as int].deep_view());
                assert(rem.skip(1) =~= ldv.skip(i as int + 1));
            }
            let stepped = self.encode_line(&lines[i], lc);
            match stepped {
                Err(e) => {
                    return Err(e);
                },
                Ok((opt, lc2)) => {
                    if let Some(enc) = opt {
                        out.push(enc);
                        proof {
                            assert(out.deep_view() =~= out_before + seq![enc.deep_view()]);
                        }
                    }
                    lc = lc2;
                },
            }
            proof {
                match spec_pass2(t, st, ldv.skip(i as int + 1), lc as int) {
                    Ok(rest) => {
                        assert(out.deep_view() + rest =~= spec_pass2(
                            t,
                            st,
                            ldv,
                            0,
                        )->Ok_0);
                    },
                    Err(_) => {},
                }
            }
            i = i + 1;
        }
        proof {
            assert(ldv.skip(i as int) =~= Seq::<SpecLine>::empty());
            assert(out.deep_view() + Seq::<SpecEncoded>::empty() =~= out.deep_view());
        }
        Ok(out)
    }
}

// ---------------------------------------------------------------
// laws of the two passes
// ---------------------------------------------------------------

/// The set of label names a line sequence defines.
pub open spec fn spec_labels_of(lines: Seq<SpecLine>) -> Set<Seq<u8>>
    decreases lines.len(),
{
    if lines.len() == 0 {
        Set::empty()
    } else {
        match spec_label_of(lines[0]) {
            Some(name) => spec_labels_of(lines.skip(1)).insert(name),
            None => spec_labels_of(lines.skip(1)),
        }
    }
}

/// The symbol names a line references through a symbol operand on an
/// instruction line.
pub open spec fn spec_refs_of_line(l: SpecLine) -> Set<Seq<u8>> {
    match l {
        SpecLine::Source(src) => if src.instruction is Some {
            match src.operand {
                Some(SpecOperand::RegisterSymbol(_, name)) => Set::empty().insert(name),
                _ => Set::empty(),
            }
        } else {
            Set::empty()
        },
        _ => Set::empty(),
    }
}

/// The set of symbol names a line sequence references.
pub open spec fn spec_refs_of(lines: Seq<SpecLine>) -> Set<Seq<u8>>
    decreases lines.len(),
{
    if lines.len() == 0 {
        Set::empty()
    } else {
        spec_refs_of_line(lines[0]).union(spec_refs_of(lines.skip(1)))
    }
}

/// A successful pass 1 defines exactly the labels of its lines: the
/// finished symbol table's domain is the starting domain plus the label
/// set, wherever in the sequence each definition stands.
pub proof fn lemma_pass1_defines_labels(
    t: Map<SpecMnemonic, SpecOpCode>,
    lines: Seq<SpecLine>,
    st: Map<Seq<u8>, u64>,
    lc: int,
    stf: Map<Seq<u8>, u64>,
    lcf: int,
)
    requires
        spec_pass1(t, lines, st, lc) == Ok::<_, SpecAsmError>((stf, lcf)),
    ensures
        stf.dom() =~= st.dom().union(spec_labels_of(lines)),
    decreases lines.len(),
{
    if lines.len() == 0 {
        assert(st.dom().union(spec_labels_of(lines)) =~= st.dom());
    } else {
        match spec_line1(t, lines[0], st, lc) {
            Ok((st2, lc2)) => {
                lemma_pass1_defines_labels(t, lines.skip(1), st2, lc2, stf, lcf);
                match spec_label_of(lines[0]) {
                    Some(name) => {
                        assert(st2.dom() =~= st.dom().insert(name));
                    },
                    None => {
                        assert(st2 == st);
                    },
                }
            },
            Err(_) => {},
        }
    }
}

/// One pass-1 step never removes a symbol.
proof fn lemma_line1_monotone(
    t: Map<SpecMnemonic, SpecOpCode>,
    l: SpecLine,
    st: Map<Seq<u8>, u64>,
    lc: int,
    st2: Map<Seq<u8>, u64>,
    lc2: int,
    name: Seq<u8>,
)
    requires
        spec_line1(t, l, st, lc) == Ok::<_, SpecAsmError>((st2, lc2)),
        st.contains_key(name),
    ensures
        st2.contains_key(name),
{
}

/// Given the finished symbol table, pass 2 succeeds exactly when every
/// referenced symbol is defined in it; with the sizes already validated
/// by a pass 1 that began at the same address, nothing else can fail.
pub proof fn lemma_pass2_iff_refs_defined(
    t: Map<SpecMnemonic, SpecOpCode>,
    lines: Seq<SpecLine>,
    st: Map<Seq<u8>, u64>,
    lc: int,
    stf: Map<Seq<u8>, u64>,
    lcf: int,
    full: Map<Seq<u8>, u64>,
)
    requires
        spec_pass1(t, lines, st, lc) == Ok::<_, SpecAsmError>((stf, lcf)),
        forall|k: Seq<u8>| stf.contains_key(k) ==> full.contains_key(k),
    ensures
        spec_pass2(t, full, lines, lc) is Ok <==> spec_refs_of(lines).subset_of(full.dom()),
        spec_pass2(t, full, lines, lc) matches Err(e) ==> e matches
            SpecAsmError::UndefinedSymbol(nm) && spec_refs_of(lines).contains(nm)
            && !full.contains_key(nm),
    decreases lines.len(),
{
    if lines.len() == 0 {
        assert(spec_refs_of(lines).subset_of(full.dom()));
    } else {
        let l = lines[0];
        match spec_line1(t, l, st, lc) {
            Ok((st2, lc2)) => {
                lemma_pass2_iff_refs_defined(t, lines.skip(1), st2, lc2, stf, lcf, full);
                // the pass-2 step at `lc` mirrors the pass-1 step: same
                // size, same table key, same overflow bound
                match spec_encode1(t, full, l, lc) {
                    Ok((opt, lc2b)) => {
                        assert(lc2b == lc2);
                        assert(spec_refs_of_line(l).subset_of(full.dom()));
                    },
                    Err(e) => {
                        // only an unresolved symbol can fail here
                        assert(e matches SpecAsmError::UndefinedSymbol(nm) && spec_refs_of_line(
                            l,
                        ).contains(nm) && !full.contains_key(nm));
                    },
                }
            },
            Err(_) => {},
        }
    }
}

/// Symbol resolution is order-independent: two assemblies over lines
/// with the same definition set and the same reference set — a forward
/// reference against the same lines reordered, say — resolve alike,
/// whichever sides of its use each definition stands on.
pub proof fn lemma_resolution_order_independent(
    t: Map<SpecMnemonic, SpecOpCode>,
    lines1: Seq<SpecLine>,
    lines2: Seq<SpecLine>,
    st1: Map<Seq<u8>, u64>,
    lcf1: int,
    st2: Map<Seq<u8>, u64>,
    lcf2: int,
)
    requires
        spec_pass1(t, lines1, Map::empty(), 0) == Ok::<_, SpecAsmError>((st1, lcf1)),
        spec_pass1(t, lines2, Map::empty(), 0) == Ok::<_, SpecAsmError>((st2, lcf2)),
        spec_labels_of(lines1) == spec_labels_of(lines2),
        spec_refs_of(lines1) == spec_refs_of(lines2),
    ensures
        spec_pass2(t, st1, lines1, 0) is Ok <==> spec_pass2(t, st2, lines2, 0) is Ok,
{
    lemma_pass1_defines_labels(t, lines1, Map::empty(), 0, st1, lcf1);
    lemma_pass1_defines_labels(t, lines2, Map::empty(), 0, st2, lcf2);
    lemma_pass2_iff_refs_defined(t, lines1, Map::empty(), 0, st1, lcf1, st1);
    lemma_pass2_iff_refs_defined(t, lines2, Map::empty(), 0, st2, lcf2, st2);
    assert(st1.dom() =~= st2.dom());
}

/// Once a name is defined, a later line defining it again makes pass 1
/// fail.
proof fn lemma_pass1_rejects_redefinition(
    t: Map<SpecMnemonic, SpecOpCode>,
    lines: Seq<SpecLine>,
    st: Map<Seq<u8>, u64>,
    lc: int,
    j: int,
    name: Seq<u8>,
)
    requires
        0 <= j < lines.len(),
        spec_label_of(lines[j]) == Some(name),
        st.contains_key(name),
    ensures
        spec_pass1(t, lines, st, lc) is Err,
    decreases lines.len(),
{
    match spec_line1(t, lines[0], st, lc) {
        Ok((st2, lc2)) => {
            // lines[0] cannot be line j: defining `name` from `st` fails
            assert(j != 0);
            lemma_line1_monotone(t, lines[0], st, lc, st2, lc2, name);
            assert(lines.skip(1)[j - 1] == lines[j]);
            lemma_pass1_rejects_redefinition(t, lines.skip(1), st2, lc2, j - 1, name);
        },
        Err(_) => {},
    }
}

/// Duplicate label definitions are always rejected: whenever two lines
/// define the same name — with the same or different instructions
/// attached — pass 1 fails.
pub proof fn lemma_duplicate_labels_rejected(
    t: Map<SpecMnemonic, SpecOpCode>,
    lines: Seq<SpecLine>,
    st: Map<Seq<u8>, u64>,
    lc: int,
    i: int,
    j: int,
    name: Seq<u8>,
)
    requires
        0 <= i < j < lines.len(),
        spec_label_of(lines[i]) == Some(name),
        spec_label_of(lines[j]) == Some(name),
    ensures
        spec_pass1(t, lines, st, lc) is Err,
    decreases lines.len(),
{
    match spec_line1(t, lines[0], st, lc) {
        Ok((st2, lc2)) => {
            if i == 0 {
                assert(st2.contains_key(name));
                assert(lines.skip(1)[j - 1] == lines[j]);
                lemma_pass1_rejects_redefinition(t, lines.skip(1), st2, lc2, j - 1, name);
            } else {
                assert(lines.skip(1)[i - 1] == lines[i]);
                assert(lines.skip(1)[j - 1] == lines[j]);
                lemma_duplicate_labels_rejected(t, lines.skip(1), st2, lc2, i - 1, j - 1, name);
            }
        },
        Err(_) => {},
    }
}

// ---------------------------------------------------------------
// the whole run
// ---------------------------------------------------------------

/// Classification of every raw line by the grammar, or the first syntax
/// error, carrying that line's text.
pub open spec fn spec_parse_all(lines: Seq<Seq<u8>>) -> Result<Seq<SpecLine>, SpecAsmError>
    decreases lines.len(),
{
    if lines.len() == 0 {
        Ok(Seq::empty())
    } else {
        match parse_line_spec(lines[0]) {
            None => Err(SpecAsmError::SyntaxError(lines[0])),
            Some(l) => match spec_parse_all(lines.skip(1)) {
                Err(e) => Err(e),
                Ok(rest) => Ok(seq![l] + rest),
            },
        }
    }
}

/// One whole assembly run over raw lines: parse them all, run pass 1
/// from a fresh assembler, then pass 2; the result is the encoding
/// records, or the first failure in that order.
pub open spec fn spec_assemble(lines: Seq<Seq<u8>>) -> Result<Seq<SpecEncoded>, SpecAsmError> {
    match spec_parse_all(lines) {
        Err(e) => Err(e),
        Ok(parsed) => match spec_pass1(initial_table(), parsed, Map::empty(), 0) {
            Err(e) => Err(e),
            Ok((st, _)) => spec_pass2(initial_table(), st, parsed, 0),
        },
    }
}

/// Parse every raw line, strictly in order, failing on the first line
/// the grammar rejects.
pub fn parse_lines(lines: &Vec<Vec<u8>>) -> (r: Result<Vec<Line>, AsmError>)
    requires
        forall|k: int| 0 <= k < lines@.len() ==> proper_line(#[trigger] lines@[k]@),
    ensures
        match r {
            Ok(v) => spec_parse_all(lines.deep_view()) == Ok::<_, SpecAsmError>(v.deep_view()),
            Err(e) => spec_parse_all(lines.deep_view()) == Err::<Seq<SpecLine>, _>(e@),
        },
{
    let ghost ldv = lines.deep_view();
    let mut out: Vec<Line> = Vec::new();
    let mut i: usize = 0;
    proof {
        assert(out.deep_view() =~= Seq::<SpecLine>::empty());
        assert(ldv.skip(0) =~= ldv);
        match spec_parse_all(ldv) {
            Ok(rest) => {
                assert(out.deep_view() + rest =~= rest);
            },
            Err(_) => {},
        }
    }
    while i < lines.len()
        invariant
            i <= lines@.len(),
            ldv == lines.deep_view(),
            ldv.len() == lines@.len(),
            forall|k: int| 0 <= k < lines@.len() ==> proper_line(#[trigger] lines@[k]@),
            match spec_parse_all(ldv.skip(i as int)) {
                Ok(rest) => spec_parse_all(ldv) == Ok::<_, SpecAsmError>(out.deep_view() + rest),
                Err(e) => spec_parse_all(ldv) == Err::<Seq<SpecLine>, _>(e),
            },
        decreases lines@.len() - i,
    {
        let ghost rem = ldv.skip(i as int);
        let ghost out_before = out.deep_view();
        proof {
            assert(rem[0] == ldv[i as int]);
            assert(ldv[i as int] == lines@[i as int].deep_view());
            assert(lines@[i as int].deep_view() =~= lines@[i as int]@);
            assert(rem.skip(1) =~= ldv.skip(i as int + 1));
        }
        let parsed = crate::parser::line(lines[i].as_slice());
        match parsed {
            Err(e) => {
                return Err(e);
            },
            Ok(l) => {
                out.push(l);
                proof {
                    assert(out.deep_view() =~= out_before + seq![l.deep_view()]);
                    match spec_parse_all(ldv.skip(i as int + 1)) {
                        Ok(rest) => {
                            assert(out.deep_view() + rest =~= out_before + (seq![l.deep_view()]
                                + rest));
                        },
                        Err(_) => {},
                    }
                }
            },
        }
        i = i + 1;
    }
    proof {
        assert(ldv.skip(i as int) =~= Seq::<Seq<u8>>::empty());
        assert(out.deep_view() + Seq::<SpecLine>::empty() =~= out.deep_view());
    }
    Ok(out)
}

/// One whole assembly run: parse the raw lines (each must end with
/// exactly one line terminator), resolve all labels in pass 1, then emit
/// the encoding records in pass 2, exactly as [`spec_assemble`] says.
pub fn assemble(lines: &Vec<Vec<u8>>) -> (r: Result<Vec<Encoded>, AsmError>)
    requires
        forall|k: int| 0 <= k < lines@.len() ==> proper_line(#[trigger] lines@[k]@),
    ensures
        match r {
            Ok(v) => spec_assemble(lines.deep_view()) == Ok::<_, SpecAsmError>(v.deep_view()),
            Err(e) => spec_assemble(lines.deep_view()) == Err::<Seq<SpecEncoded>, _>(e@),
        },
{
    let parsed = match parse_lines(lines) {
        Err(e) => {
            return Err(e);
        },
        Ok(v) => v,
    };
    let mut a = Assembler::new();
    if let Err(e) = a.pass1(&parsed) {
        return Err(e);
    }
    a.pass2(&parsed)
}

} // verus!
