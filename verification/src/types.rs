use vstd::prelude::*;

verus! {

use crate::dict::DictionaryEntry;

/// Starting byte offset of a match inside an input line.
pub type StartByte = usize;

/// Ending byte offset (exclusive) of a match inside an input line.
pub type EndByte = usize;

/// Index of a matched term inside the dictionary; it resolves to the class of
/// the match.
pub type DictionaryIndex = usize;

/// A term of the dictionary.
pub type Term = String;

/// A class label of the dictionary.
pub type Class = String;

/// The entries of a dictionary.
pub type Entries = Vec<DictionaryEntry>;

/// One raw match: start byte, end byte (exclusive), dictionary index.
pub type FindResult = (StartByte, EndByte, DictionaryIndex);

} // verus!
