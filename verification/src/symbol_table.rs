//! The symbol table: label name to resolved address.  Entries are added
//! only during pass 1, which fails on a duplicate definition; pass 2
//! reads the finished table and never writes it.
use vstd::prelude::*;

use crate::error::AsmError;
use crate::lexing::bytes_eq;

verus! {

/// The map that a sequence of symbol entries denotes; a later entry for
/// the same name would replace an earlier one, though pass 1 only ever
/// defines a name once.
pub open spec fn symbols_map(entries: Seq<(Vec<u8>, u64)>) -> Map<Seq<u8>, u64>
    decreases entries.len(),
{
    if entries.len() == 0 {
        Map::empty()
    } else {
        symbols_map(entries.drop_last()).insert(entries.last().0@, entries.last().1)
    }
}

proof fn lemma_symbols_map_absent(entries: Seq<(Vec<u8>, u64)>, k: Seq<u8>)
    requires
        forall|j: int| 0 <= j < entries.len() ==> #[trigger] entries[j].0@ != k,
    ensures
        !symbols_map(entries).contains_key(k),
    decreases entries.len(),
{
    if entries.len() > 0 {
        assert(entries[entries.len() - 1].0@ != k);
        lemma_symbols_map_absent(entries.drop_last(), k);
    }
}

proof fn lemma_symbols_map_found(entries: Seq<(Vec<u8>, u64)>, i: int)
    requires
        0 <= i < entries.len(),
        forall|j: int| i < j < entries.len() ==> #[trigger] entries[j].0@ != entries[i].0@,
    ensures
        symbols_map(entries).contains_key(entries[i].0@),
        symbols_map(entries)[entries[i].0@] == entries[i].1,
    decreases entries.len(),
{
    if i < entries.len() - 1 {
        lemma_symbols_map_found(entries.drop_last(), i);
        assert(entries[entries.len() - 1].0@ != entries[i].0@);
    }
}

/// Label name to resolved address.  Its view is the finite map from the
/// defined names to their addresses; a name outside the view's domain is
/// undefined.
pub struct SymbolTable {
    entries: Vec<(Vec<u8>, u64)>,
}

impl View for SymbolTable {
    type V = Map<Seq<u8>, u64>;

    closed spec fn view(&self) -> Map<Seq<u8>, u64> {
        symbols_map(self.entries@)
    }
}

impl SymbolTable {
    /// The empty table: every name undefined.
    pub fn new() -> (t: SymbolTable)
        ensures
            t@ == Map::<Seq<u8>, u64>::empty(),
    {
        SymbolTable { entries: Vec::new() }
    }

    /// The address of a defined name, or `None` when it is undefined.
    pub fn lookup(&self, name: &[u8]) -> (r: Option<u64>)
        ensures
            match r {
                Some(a) => self@.contains_key(name@) && a == self@[name@],
                None => !self@.contains_key(name@),
            },
    {
        let mut i: usize = self.entries.len();
        while i > 0
            invariant
                i <= self.entries@.len(),
                forall|j: int| i <= j < self.entries@.len() ==> #[trigger] self.entries@[j].0@
                    != name@,
            decreases i,
        {
            i = i - 1;
            if bytes_eq(self.entries[i].0.as_slice(), name) {
                proof {
                    lemma_symbols_map_found(self.entries@, i as int);
                }
                return Some(self.entries[i].1);
            }
        }
        proof {
            lemma_symbols_map_absent(self.entries@, name@);
        }
        None
    }

    /// Pass-1 transition of one label: an undefined name becomes defined
    /// at the given address; defining a name twice is the duplicate-
    /// symbol failure, and the table is left unchanged.
    pub fn define(&mut self, name: &[u8], address: u64) -> (r: Result<(), AsmError>)
        ensures
            match r {
                Ok(()) => !old(self)@.contains_key(name@) && final(self)@ == old(self)@.insert(
                    name@,
                    address,
                ),
                Err(e) => old(self)@.contains_key(name@) && final(self)@ == old(self)@ && e@
                    == crate::error::SpecAsmError::DuplicateSymbol(name@),
            },
    {
        match self.lookup(name) {
            Some(_) => Err(AsmError::DuplicateSymbol(vstd::slice::slice_to_vec(name))),
            None => {
                let ghost before = self.entries@;
                self.entries.push((vstd::slice::slice_to_vec(name), address));
                proof {
                    assert(self.entries@.drop_last() =~= before);
                }
                Ok(())
            },
        }
    }
}

} // verus!
