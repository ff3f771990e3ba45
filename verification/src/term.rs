//! Lexicon terms and the candidates that lookups extract from an input.

use vstd::prelude::*;

verus! {

/// Index of a term inside a dictionary.
pub type TermId = usize;

/// A lexicon entry: the context it connects through and what it costs to emit.
#[derive(Debug, Clone, Copy, PartialEq, Eq, Structural)]
pub struct Term {
    pub context_id: u16,
    pub cost: i16,
}

impl Term {
    pub fn new(context_id: u16, cost: i16) -> (term: Self)
        ensures
            term == (Term { context_id, cost }),
    {
        Self { context_id, cost }
    }
}

/// A candidate found at some offset of the input: which term, from which
/// dictionary, and how many bytes of the input it spans.
#[derive(Debug, Clone, Copy, PartialEq, Eq, Structural)]
pub struct ExtractedTerm {
    pub id: TermId,
    pub unknown: bool,
    pub length: usize,
    pub value: Term,
}

impl ExtractedTerm {
    pub fn new(id: TermId, unknown: bool, length: usize, value: Term) -> (extracted: Self)
        ensures
            extracted == (ExtractedTerm { id, unknown, length, value }),
    {
        Self { id, unknown, length, value }
    }
}

} // verus!
