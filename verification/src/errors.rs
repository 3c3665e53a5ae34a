use vstd::prelude::*;

verus! {

/// Returned when a tagger is built without a dictionary, or when the matching
/// structure cannot be constructed from the configured dictionary.
#[derive(Debug, Clone, PartialEq, Eq, Structural)]
pub struct MissingDictionnary;

} // verus!
