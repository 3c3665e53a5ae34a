//! The multi-pattern matcher, built on the aho-corasick crate.
//!
//! The automaton is opaque to verification: what it was built from is
//! described by the uninterpreted functions [`automaton_terms`],
//! [`automaton_case_insensitive`] and [`automaton_policy`], and the match
//! set it reports for a haystack is named by [`automaton_matches`], a
//! function of the automaton's configuration and the haystack alone.

use vstd::prelude::*;

verus! {

use vstd::string::StringSliceAdditionalSpecFns;
use crate::types::FindResult;

/// How overlapping candidate matches are resolved, chosen when the matcher
/// is built.
#[derive(Debug, Clone, Copy, PartialEq, Eq, Structural)]
pub enum MatchPolicy {
    /// Automaton-default order: matches are reported as the automaton
    /// reaches them; the reported sequence is still non-overlapping.
    Standard,
    /// Prefer the match starting earliest; ties go to the term registered
    /// first.
    LeftmostFirst,
    /// Prefer the match starting earliest; ties go to the longest match.
    LeftmostLongest,
}

#[verifier::external_type_specification]
#[verifier::external_body]
pub struct ExAhoCorasick(aho_corasick::AhoCorasick);

/// The terms the automaton was built from, in registration order.
pub uninterp spec fn automaton_terms(ac: aho_corasick::AhoCorasick) -> Seq<Seq<char>>;

/// Whether the automaton matches ASCII letters case-insensitively.
pub uninterp spec fn automaton_case_insensitive(ac: aho_corasick::AhoCorasick) -> bool;

/// The overlap-resolution policy the automaton was built with.
pub uninterp spec fn automaton_policy(ac: aho_corasick::AhoCorasick) -> MatchPolicy;

/// Whether automaton construction succeeds for the given terms and
/// settings; construction is deterministic, failing only when internal
/// automaton limits would be exceeded.
pub uninterp spec fn automaton_buildable(
    terms: Seq<Seq<char>>,
    case_insensitive: bool,
    policy: MatchPolicy,
) -> bool;

/// The match set the automaton reports for a haystack: a function of the
/// terms, the two settings and the haystack alone.
pub uninterp spec fn automaton_matches(
    terms: Seq<Seq<char>>,
    case_insensitive: bool,
    policy: MatchPolicy,
    text: Seq<char>,
) -> Seq<FindResult>;

/// Relies on AhoCorasickBuilder::build, with the match kind and ASCII
/// case-insensitivity configured first: construction is deterministic in
/// the terms and settings, and the built automaton holds exactly the given
/// terms, in order.
#[verifier::external_body]
pub(crate) fn build_automaton(
    terms: &Vec<String>,
    case_insensitive: bool,
    policy: MatchPolicy,
) -> (r: Option<aho_corasick::AhoCorasick>)
    ensures
        r is Some <==> automaton_buildable(
            terms@.map_values(|t: String| t@),
            case_insensitive,
            policy,
        ),
        r is Some ==> automaton_terms(r->0) == terms@.map_values(|t: String| t@),
        r is Some ==> automaton_case_insensitive(r->0) == case_insensitive,
        r is Some ==> automaton_policy(r->0) == policy,
{
    let kind = match policy {
        MatchPolicy::Standard => aho_corasick::MatchKind::Standard,
        MatchPolicy::LeftmostFirst => aho_corasick::MatchKind::LeftmostFirst,
        MatchPolicy::LeftmostLongest => aho_corasick::MatchKind::LeftmostLongest,
    };
    aho_corasick::AhoCorasickBuilder::new().match_kind(kind).ascii_case_insensitive(
        case_insensitive,
    ).build(terms).ok()
}

/// Relies on AhoCorasick::find_iter: an unanchored search over a string
/// haystack cannot fail; it yields the non-overlapping matches in ascending
/// position, each lying inside the haystack and naming a pattern of the
/// automaton; the match set is deterministic in the automaton's terms and
/// settings and in the haystack.
#[verifier::external_body]
pub(crate) fn automaton_find(ac: &aho_corasick::AhoCorasick, text: &str) -> (r: Vec<FindResult>)
    ensures
        r@ == automaton_matches(
            automaton_terms(*ac),
            automaton_case_insensitive(*ac),
            automaton_policy(*ac),
            text@,
        ),
        forall|k: int|
            0 <= k < r@.len() ==> (#[trigger] r@[k]).0 <= r@[k].1 && r@[k].1
                <= text.spec_bytes().len() && r@[k].2 < automaton_terms(*ac).len(),
        forall|k: int| 0 <= k < r@.len() - 1 ==> (#[trigger] r@[k]).1 <= r@[k + 1].0,
{
    ac.find_iter(text).map(|m| (m.start(), m.end(), m.pattern().as_usize())).collect()
}

} // verus!
