//! The encoding table: a read-only mapping from mnemonic and operand
//! shape to opcode bytes and authoritative instruction length.  The
//! table is fully populated at assembler start and only ever queried
//! afterwards; its view is the finite map the inserts built, with a
//! later insert for the same key replacing the earlier one.
use vstd::prelude::*;

use crate::lexing::bytes_eq;

verus! {

broadcast use vstd::slice::group_slice_axioms;

/// The kind of one operand position in an encoding-table key.
#[derive(Debug, PartialEq, Eq, Hash, Clone, Copy, Structural)]
#[allow(missing_docs)]
pub enum OperandType {
    Imm8,
    Imm16,
    Imm32,
    Imm64,
    Reg8,
    Reg16,
    Reg32,
    Reg64,
    Mem8,
    Mem16,
    Mem32,
    Mem64,
}

/// The operand shape of an encoding-table key: either no operands, or a
/// pair of operand kinds.
#[derive(Debug, PartialEq, Eq, Hash, Clone, Copy, Structural)]
pub enum OpCodeType {
    /// The instruction takes no operand.
    NoOperands,
    /// The instruction takes two operand positions of the given kinds.
    Type(OperandType, OperandType),
}

/// Spec-level model of [`Mnemonic`].
pub ghost struct SpecMnemonic {
    pub mnemonic: Seq<u8>,
    pub mnemonic_type: OpCodeType,
}

/// An encoding-table key: instruction name plus operand shape.  Multiple
/// entries may share a name with different shapes (overload by operand
/// pattern).
#[derive(Debug, PartialEq, Eq, Clone)]
pub struct Mnemonic {
    /// The instruction name.
    pub mnemonic: Vec<u8>,
    /// The operand shape.
    pub mnemonic_type: OpCodeType,
}

impl View for Mnemonic {
    type V = SpecMnemonic;

    open spec fn view(&self) -> SpecMnemonic {
        SpecMnemonic { mnemonic: self.mnemonic@, mnemonic_type: self.mnemonic_type }
    }
}

/// Spec-level model of [`OpCode`].
pub ghost struct SpecOpCode {
    pub code: Seq<u8>,
    pub length: usize,
}

/// One encoding: the opcode bytes and the full encoded instruction
/// length, the single source of truth for sizing.
#[derive(Debug, PartialEq, Eq, Clone)]
pub struct OpCode {
    /// The opcode byte sequence.
    pub code: Vec<u8>,
    /// The authoritative encoded size, prefix and operand bytes included.
    pub length: usize,
}

impl View for OpCode {
    type V = SpecOpCode;

    open spec fn view(&self) -> SpecOpCode {
        SpecOpCode { code: self.code@, length: self.length }
    }
}

/// The map that a sequence of table entries denotes: entries are applied
/// first to last, so a later entry with the same key replaces an earlier
/// one, as a map insert does.
pub open spec fn entries_map(entries: Seq<(Mnemonic, OpCode)>) -> Map<SpecMnemonic, SpecOpCode>
    decreases entries.len(),
{
    if entries.len() == 0 {
        Map::empty()
    } else {
        entries_map(entries.drop_last()).insert(entries.last().0@, entries.last().1@)
    }
}

/// A key missing from every entry is missing from the denoted map.
proof fn lemma_entries_map_absent(entries: Seq<(Mnemonic, OpCode)>, k: SpecMnemonic)
    requires
        forall|j: int| 0 <= j < entries.len() ==> #[trigger] entries[j].0@ != k,
    ensures
        !entries_map(entries).contains_key(k),
    decreases entries.len(),
{
    if entries.len() > 0 {
        assert(entries[entries.len() - 1].0@ != k);
        lemma_entries_map_absent(entries.drop_last(), k);
    }
}

/// The denoted map sends a key to the value of its last entry.
proof fn lemma_entries_map_found(entries: Seq<(Mnemonic, OpCode)>, i: int)
    requires
        0 <= i < entries.len(),
        forall|j: int| i < j < entries.len() ==> #[trigger] entries[j].0@ != entries[i].0@,
    ensures
        entries_map(entries).contains_key(entries[i].0@),
        entries_map(entries)[entries[i].0@] == entries[i].1@,
    decreases entries.len(),
{
    if i < entries.len() - 1 {
        lemma_entries_map_found(entries.drop_last(), i);
        assert(entries[entries.len() - 1].0@ != entries[i].0@);
    }
}

/// The encoding table.
pub struct OpCodeTable {
    entries: Vec<(Mnemonic, OpCode)>,
}

impl View for OpCodeTable {
    type V = Map<SpecMnemonic, SpecOpCode>;

    closed spec fn view(&self) -> Map<SpecMnemonic, SpecOpCode> {
        entries_map(self.entries@)
    }
}

fn mnemonic_eq(a: &Mnemonic, b: &Mnemonic) -> (r: bool)
    ensures
        r == (a@ == b@),
{
    let names = bytes_eq(a.mnemonic.as_slice(), b.mnemonic.as_slice());
    names && a.mnemonic_type == b.mnemonic_type
}

impl OpCodeTable {
    /// The empty table.
    pub fn new() -> (t: OpCodeTable)
        ensures
            t@ == Map::<SpecMnemonic, SpecOpCode>::empty(),
    {
        OpCodeTable { entries: Vec::new() }
    }

    /// Add one encoding under the key `(m, mt)`, replacing any earlier
    /// entry with that key.
    pub fn insert(&mut self, m: &[u8], mt: OpCodeType, code: Vec<u8>, l: usize)
        ensures
            final(self)@ == old(self)@.insert(
                SpecMnemonic { mnemonic: m@, mnemonic_type: mt },
                SpecOpCode { code: code@, length: l },
            ),
    {
        let key = Mnemonic { mnemonic: vstd::slice::slice_to_vec(m), mnemonic_type: mt };
        let value = OpCode { code: code, length: l };
        let ghost before = self.entries@;
        self.entries.push((key, value));
        proof {
            assert(self.entries@.drop_last() =~= before);
        }
    }

    /// Look an encoding up: a pure function of the table and the key,
    /// `Some` exactly on the keys the inserts put there.
    pub fn get(&self, mnemonic: &Mnemonic) -> (r: Option<&OpCode>)
        ensures
            match r {
                Some(op) => self@.contains_key(mnemonic@) && op@ == self@[mnemonic@],
                None => !self@.contains_key(mnemonic@),
            },
    {
        let mut i: usize = self.entries.len();
        while i > 0
            invariant
                i <= self.entries@.len(),
                forall|j: int| i <= j < self.entries@.len() ==> #[trigger] self.entries@[j].0@
                    != mnemonic@,
            decreases i,
        {
            i = i - 1;
            if mnemonic_eq(&self.entries[i].0, mnemonic) {
                proof {
                    lemma_entries_map_found(self.entries@, i as int);
                }
                return Some(&self.entries[i].1);
            }
        }
        proof {
            lemma_entries_map_absent(self.entries@, mnemonic@);
        }
        None
    }
}

} // verus!
