//! Dictionary-based sequence tagger.
//!
//! Text is matched against a dictionary of terms, matches are kept only when
//! they are delimited by word boundaries, the line is segmented into a gapless
//! sequence of tagged and untagged chunks, and each chunk is tokenized into
//! per-word tags in either the IOB (three-label) or the BIOES (five-label)
//! scheme.

pub mod automaton;
pub mod bioes;
pub mod dict;
pub mod errors;
pub mod iob;
pub mod laws;
pub mod tag;
pub mod tagger;
pub mod tokens;
pub mod types;
pub mod word;
