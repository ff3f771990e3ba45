//! Morphological analysis of written Japanese: dictionary lookup over a
//! finite-state transducer, unknown-word generation from a character
//! table, a lattice of candidates with a shortest-path search, and the
//! grouping of morphemes into words with their inflections.

pub mod builder;
pub mod char_table;
pub mod codec;
pub mod conjugation;
pub mod dict;
pub mod error;
pub mod feature;
pub mod inflection;
pub mod lattice;
pub mod lexicon;
pub mod matrix;
pub mod morpheme;
pub mod pos;
pub mod row;
pub mod searcher;
pub mod term;
pub mod text;
pub mod tokenizer;
pub mod unk;
pub mod verb;
pub mod word;

pub use inflection::Inflection;
pub use morpheme::Morpheme;
pub use tokenizer::{tokenize, tokenize_word, Tokenizer};
pub use word::Word;
