//! The error taxonomy of the assembler core.  Every failure is a typed
//! value surfaced to the caller; nothing panics and nothing retries.
use vstd::prelude::*;

verus! {

/// Spec-level model of [`AsmError`], with byte strings as sequences.
pub ghost enum SpecAsmError {
    /// A line matched none of the recognized shapes; carries the raw line.
    SyntaxError(Seq<u8>),
    /// Encoding-table lookup failed for a valid instruction line; carries
    /// the mnemonic.
    UnknownMnemonicOrShape(Seq<u8>),
    /// A label was defined twice; carries the label.
    DuplicateSymbol(Seq<u8>),
    /// A symbol operand references a label never defined; carries the name.
    UndefinedSymbol(Seq<u8>),
    /// The location counter left the unsigned 64-bit range.
    AddressOverflow,
}

/// A fatal assembly failure.  All variants abort the run: the core never
/// resynchronizes or emits partial output.
#[derive(Debug, PartialEq, Eq, Clone)]
pub enum AsmError {
    /// A line matched none of the recognized shapes; carries the raw line.
    SyntaxError(Vec<u8>),
    /// Encoding-table lookup failed for a syntactically valid
    /// instruction/operand combination; carries the mnemonic.
    UnknownMnemonicOrShape(Vec<u8>),
    /// A label was defined twice during the first pass; carries the label.
    DuplicateSymbol(Vec<u8>),
    /// A symbol operand references a label never defined, detected in the
    /// second pass; carries the name.
    UndefinedSymbol(Vec<u8>),
    /// The location counter left the unsigned 64-bit range.
    AddressOverflow,
}

impl View for AsmError {
    type V = SpecAsmError;

    open spec fn view(&self) -> SpecAsmError {
        match self {
            AsmError::SyntaxError(s) => SpecAsmError::SyntaxError(s@),
            AsmError::UnknownMnemonicOrShape(s) => SpecAsmError::UnknownMnemonicOrShape(s@),
            AsmError::DuplicateSymbol(s) => SpecAsmError::DuplicateSymbol(s@),
            AsmError::UndefinedSymbol(s) => SpecAsmError::UndefinedSymbol(s@),
            AsmError::AddressOverflow => SpecAsmError::AddressOverflow,
        }
    }
}

impl DeepView for AsmError {
    type V = SpecAsmError;

    open spec fn deep_view(&self) -> SpecAsmError {
        self.view()
    }
}

} // verus!
