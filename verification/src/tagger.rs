//! The tagger: matches a dictionary against a line, keeps the matches that
//! are delimited by word boundaries, and segments the line into a gapless,
//! ordered sequence of tagged and untagged chunks.

use vstd::prelude::*;

verus! {

use vstd::string::StringSliceAdditionalSpecFns;
use vstd::utf8::{decode_utf8, encode_utf8, is_char_boundary, valid_utf8};
use crate::automaton::{
    automaton_buildable,
    automaton_case_insensitive,
    automaton_find,
    automaton_matches,
    automaton_policy,
    automaton_terms,
    build_automaton,
    MatchPolicy,
};
use crate::dict::{Dictionary, DictionaryEntryV};
use crate::errors::MissingDictionnary;
use crate::tag::{Tag, TaggedContent, TaggedContentV, Tags, TagV, UntaggedContent, UntaggedContentV};
use crate::types::FindResult;
use crate::word::{
    filter_word_matches,
    lemma_filter_matches_pattern_bound,
    lemma_filter_matches_wf,
    matches_wf,
    spec_filter_matches,
    substring,
};

broadcast use
    vstd::utf8::encode_utf8_valid_utf8,
    vstd::utf8::is_char_boundary_start_end_of_seq,
    vstd::slice::group_slice_axioms;

/// The terms of a dictionary, in entry order.
pub open spec fn dict_terms(dict: Seq<DictionaryEntryV>) -> Seq<Seq<char>> {
    dict.map_values(|e: DictionaryEntryV| e.term)
}

/// The class of the dictionary entry at `p`, or the empty class when `p` is
/// out of range.
pub open spec fn class_of(dict: Seq<DictionaryEntryV>, p: int) -> Seq<char> {
    if 0 <= p < dict.len() {
        dict[p].class
    } else {
        Seq::empty()
    }
}

/// The untagged chunk covering bytes `s..e` of the line.
pub open spec fn spec_untagged(bytes: Seq<u8>, s: int, e: int) -> TagV {
    TagV::UnTagged(UntaggedContentV { text: decode_utf8(bytes.subrange(s, e)), start: s, end: e })
}

/// The tagged chunk covering bytes `s..e` of the line, carrying `class`.
pub open spec fn spec_tagged(bytes: Seq<u8>, s: int, e: int, class: Seq<char>) -> TagV {
    TagV::Tagged(
        TaggedContentV { text: decode_utf8(bytes.subrange(s, e)), start: s, end: e, class },
    )
}

/// The chunks for the matches `ms[i..]`: each match becomes a tagged chunk;
/// between consecutive matches the gap becomes an untagged chunk (possibly
/// empty, when the matches are adjacent); after the last match the rest of
/// the line becomes an untagged chunk, unless the match already ends at the
/// end of the line.
pub open spec fn spec_spans_from(
    bytes: Seq<u8>,
    ms: Seq<FindResult>,
    dict: Seq<DictionaryEntryV>,
    i: int,
) -> Seq<TagV>
    decreases ms.len() - i,
    when 0 <= i < ms.len()
{
    let m = ms[i];
    let tagged = spec_tagged(bytes, m.0 as int, m.1 as int, class_of(dict, m.2 as int));
    if i + 1 < ms.len() {
        seq![tagged, spec_untagged(bytes, m.1 as int, ms[i + 1].0 as int)] + spec_spans_from(
            bytes,
            ms,
            dict,
            i + 1,
        )
    } else {
        if (m.1 as int) < bytes.len() {
            seq![tagged, spec_untagged(bytes, m.1 as int, bytes.len() as int)]
        } else {
            seq![tagged]
        }
    }
}

/// The gapless chunk sequence for a line with kept matches `ms`: a leading
/// untagged chunk when the first match does not start the line, then the
/// chunks of [`spec_spans_from`]; a line without matches is one untagged
/// chunk.
pub open spec fn spec_spans(bytes: Seq<u8>, ms: Seq<FindResult>, dict: Seq<DictionaryEntryV>) -> Seq<
    TagV,
> {
    if ms.len() == 0 {
        seq![spec_untagged(bytes, 0, bytes.len() as int)]
    } else if ms[0].0 as int > 0 {
        seq![spec_untagged(bytes, 0, ms[0].0 as int)] + spec_spans_from(bytes, ms, dict, 0)
    } else {
        spec_spans_from(bytes, ms, dict, 0)
    }
}

/// Configures and builds a [`Tagger`].
pub struct TaggerBuilder<'a> {
    dict: Option<&'a Dictionary>,
    case_sensitive: bool,
    match_kind: MatchPolicy,
    word_matching: bool,
}

impl<'a> TaggerBuilder<'a> {
    /// The configured dictionary, if any.
    pub closed spec fn spec_dict(&self) -> Option<&'a Dictionary> {
        self.dict
    }

    /// The configured case sensitivity.
    pub closed spec fn spec_case_sensitive(&self) -> bool {
        self.case_sensitive
    }

    /// The configured overlap-resolution policy.
    pub closed spec fn spec_match_kind(&self) -> MatchPolicy {
        self.match_kind
    }

    /// The configured word-matching flag.  The flag is recorded for
    /// configuration parity; tagging always validates word boundaries.
    pub closed spec fn spec_word_matching(&self) -> bool {
        self.word_matching
    }

    /// Sets the dictionary to tag with.
    pub fn dictionary(self, dict: &'a Dictionary) -> (r: TaggerBuilder<'a>)
        ensures
            r.spec_dict() == Some(dict),
            r.spec_case_sensitive() == self.spec_case_sensitive(),
            r.spec_match_kind() == self.spec_match_kind(),
            r.spec_word_matching() == self.spec_word_matching(),
    {
        TaggerBuilder {
            dict: Some(dict),
            case_sensitive: self.case_sensitive,
            match_kind: self.match_kind,
            word_matching: self.word_matching,
        }
    }

    /// Sets whether matching distinguishes ASCII letter case.
    pub fn case_sensitive(self, case_sensitive: bool) -> (r: TaggerBuilder<'a>)
        ensures
            r.spec_dict() == self.spec_dict(),
            r.spec_case_sensitive() == case_sensitive,
            r.spec_match_kind() == self.spec_match_kind(),
            r.spec_word_matching() == self.spec_word_matching(),
    {
        TaggerBuilder {
            dict: self.dict,
            case_sensitive,
            match_kind: self.match_kind,
            word_matching: self.word_matching,
        }
    }

    /// Sets the overlap-resolution policy.
    pub fn match_kind(self, match_kind: MatchPolicy) -> (r: TaggerBuilder<'a>)
        ensures
            r.spec_dict() == self.spec_dict(),
            r.spec_case_sensitive() == self.spec_case_sensitive(),
            r.spec_match_kind() == match_kind,
            r.spec_word_matching() == self.spec_word_matching(),
    {
        TaggerBuilder {
            dict: self.dict,
            case_sensitive: self.case_sensitive,
            match_kind,
            word_matching: self.word_matching,
        }
    }

    /// Sets the word-matching flag.
    pub fn word_matching(self, word_matching: bool) -> (r: TaggerBuilder<'a>)
        ensures
            r.spec_dict() == self.spec_dict(),
            r.spec_case_sensitive() == self.spec_case_sensitive(),
            r.spec_match_kind() == self.spec_match_kind(),
            r.spec_word_matching() == word_matching,
    {
        TaggerBuilder {
            dict: self.dict,
            case_sensitive: self.case_sensitive,
            match_kind: self.match_kind,
            word_matching,
        }
    }

    /// Builds the tagger.  Construction succeeds exactly when a dictionary
    /// was configured and the matching automaton can be built from its
    /// terms; any failure is reported as the one configuration error.
    pub fn build(self) -> (r: Result<Tagger<'a>, MissingDictionnary>)
        ensures
            r is Ok <==> (self.spec_dict() is Some && automaton_buildable(
                dict_terms(self.spec_dict()->0@),
                !self.spec_case_sensitive(),
                self.spec_match_kind(),
            )),
            r is Ok ==> {
                let t = r->Ok_0;
                &&& t.wf()
                &&& t.dict_view() == self.spec_dict()->0@
                &&& t.case_insensitive() == !self.spec_case_sensitive()
                &&& t.policy() == self.spec_match_kind()
            },
    {
        match self.dict {
            Some(dict) => {
                let terms = dict.terms();
                proof {
                    assert(terms@.map_values(|t: String| t@) == dict_terms(dict@));
                }
                match build_automaton(&terms, !self.case_sensitive, self.match_kind) {
                    Some(finder) => Ok(Tagger { dict, finder }),
                    None => Err(MissingDictionnary),
                }
            },
            None => Err(MissingDictionnary),
        }
    }
}

impl<'a> Default for TaggerBuilder<'a> {
    /// The default configuration: no dictionary, case-insensitive,
    /// leftmost-longest policy, word matching on.
    fn default() -> (r: Self)
        ensures
            r.spec_dict() is None,
            r.spec_case_sensitive() == false,
            r.spec_match_kind() == MatchPolicy::LeftmostLongest,
            r.spec_word_matching() == true,
    {
        TaggerBuilder {
            dict: None,
            case_sensitive: false,
            match_kind: MatchPolicy::LeftmostLongest,
            word_matching: true,
        }
    }
}

/// Tags text with a dictionary.
pub struct Tagger<'a> {
    dict: &'a Dictionary,
    finder: aho_corasick::AhoCorasick,
}

impl<'a> Tagger<'a> {
    /// The dictionary the tagger was built with.
    pub closed spec fn dict_view(&self) -> Seq<DictionaryEntryV> {
        self.dict@
    }

    /// Whether matching folds ASCII letter case.
    pub closed spec fn case_insensitive(&self) -> bool {
        automaton_case_insensitive(self.finder)
    }

    /// The overlap-resolution policy of the tagger.
    pub closed spec fn policy(&self) -> MatchPolicy {
        automaton_policy(self.finder)
    }

    /// Well-formedness: the matching automaton holds exactly the terms of
    /// the dictionary, in order.  [`TaggerBuilder::build`] establishes it.
    pub closed spec fn wf(&self) -> bool {
        automaton_terms(self.finder) == dict_terms(self.dict_view())
    }

    /// The raw matches the tagger reports for a line.
    pub open spec fn spec_find(&self, text: Seq<char>) -> Seq<FindResult> {
        automaton_matches(
            dict_terms(self.dict_view()),
            self.case_insensitive(),
            self.policy(),
            text,
        )
    }

    /// The matches that survive the word filter.
    pub open spec fn spec_find_word(&self, text: Seq<char>) -> Seq<FindResult> {
        spec_filter_matches(encode_utf8(text), self.spec_find(text), 0, 0)
    }

    /// The chunk sequence the tagger produces for a line.
    pub open spec fn spec_tag(&self, text: Seq<char>) -> Seq<TagV> {
        spec_spans(encode_utf8(text), self.spec_find_word(text), self.dict_view())
    }

    /// Finds every occurrence of a dictionary term in the input, as
    /// `(start byte, end byte, dictionary index)`, ordered by position,
    /// non-overlapping, per the configured policy.
    pub fn find(&self, input: &str) -> (r: Vec<FindResult>)
        requires
            self.wf(),
        ensures
            r@ == self.spec_find(input@),
            forall|k: int|
                0 <= k < r@.len() ==> (#[trigger] r@[k]).0 <= r@[k].1 && r@[k].1
                    <= input.spec_bytes().len() && r@[k].2 < self.dict_view().len(),
            forall|k: int| 0 <= k < r@.len() - 1 ==> (#[trigger] r@[k]).1 <= r@[k + 1].0,
    {
        let r = automaton_find(&self.finder, input);
        proof {
            assert(automaton_terms(self.finder).len() == self.dict_view().len());
        }
        r
    }

    /// Finds the dictionary matches of the input that are delimited by word
    /// boundaries, ordered by position and non-overlapping.
    pub fn find_word(&self, input: &str) -> (r: Vec<FindResult>)
        requires
            self.wf(),
        ensures
            r@ == self.spec_find_word(input@),
            matches_wf(input.spec_bytes(), r@, 0),
            forall|k: int| 0 <= k < r@.len() ==> (#[trigger] r@[k]).2 < self.dict_view().len(),
    {
        let ms = self.find(input);
        let r = filter_word_matches(&ms, input);
        proof {
            lemma_filter_matches_wf(input.spec_bytes(), ms@, 0, 0);
            lemma_filter_matches_pattern_bound(
                input.spec_bytes(),
                ms@,
                0,
                0,
                self.dict_view().len() as int,
            );
        }
        r
    }

    /// Performs text annotation on a given line: the line is segmented into
    /// a gapless, ordered chunk sequence, one tagged chunk per kept match,
    /// untagged chunks for the text between them.
    #[verifier::rlimit(100)]
    pub fn tag(&self, text: &str) -> (r: Tags)
        requires
            self.wf(),
        ensures
            r@ == self.spec_tag(text@),
    {
        let ghost bytes = text.spec_bytes();
        let results = self.find_word(text);
        let ghost total = spec_spans(bytes, results@, self.dict_view());
        let n = text.as_bytes().len();
        proof {
            assert(valid_utf8(bytes));
            assert(is_char_boundary(bytes, 0));
            assert(is_char_boundary(bytes, bytes.len() as int));
        }
        let mut tags: Vec<Tag> = Vec::new();
        if results.len() == 0 {
            let whole = substring(text, 0, n);
            tags.push(Tag::UnTagged(UntaggedContent::new(whole, 0, n)));
            proof {
                assert(tags@.map_values(|t: Tag| t@) =~= total);
            }
            return Tags(tags);
        }
        let (s0, _, _) = results[0];
        if s0 > 0 {
            let lead = substring(text, 0, s0);
            tags.push(Tag::UnTagged(UntaggedContent::new(lead, 0, s0)));
        }
        proof {
            assert(tags@.map_values(|t: Tag| t@) + spec_spans_from(
                bytes,
                results@,
                self.dict_view(),
                0,
            ) =~= total);
        }
        let mut i: usize = 0;
        while i < results.len()
            invariant
                0 <= i <= results@.len(),
                results@.len() > 0,
                self.wf(),
                bytes == text.spec_bytes(),
                n == bytes.len(),
                matches_wf(bytes, results@, 0),
                forall|k: int|
                    0 <= k < results@.len() ==> (#[trigger] results@[k]).2
                        < self.dict_view().len(),
                total == spec_spans(bytes, results@, self.dict_view()),
                i < results@.len() ==> tags@.map_values(|t: Tag| t@) + spec_spans_from(
                    bytes,
                    results@,
                    self.dict_view(),
                    i as int,
                ) == total,
                i == results@.len() ==> tags@.map_values(|t: Tag| t@) == total,
            decreases results@.len() - i,
        {
            let (s, e, p) = results[i];
            proof {
                assert((s, e, p) == results@[i as int]);
                assert(crate::word::spec_match_kept(bytes, s as int, e as int));
            }
            let chunk = substring(text, s, e);
            let class = self.dict.get_class(p);
            tags.push(Tag::Tagged(TaggedContent::new(chunk, s, e, class)));
            if i + 1 < results.len() {
                let (s_next, _, _) = results[i + 1];
                proof {
                    assert(results@[i as int].1 as int <= results@[i as int + 1].0 as int);
                    assert(crate::word::spec_match_kept(
                        bytes,
                        s_next as int,
                        results@[i as int + 1].1 as int,
                    ));
                }
                let gap = substring(text, e, s_next);
                tags.push(Tag::UnTagged(UntaggedContent::new(gap, e, s_next)));
                proof {
                    assert(spec_spans_from(bytes, results@, self.dict_view(), i as int) == seq![
                        spec_tagged(
                            bytes,
                            s as int,
                            e as int,
                            class_of(self.dict_view(), p as int),
                        ),
                        spec_untagged(bytes, e as int, s_next as int),
                    ] + spec_spans_from(bytes, results@, self.dict_view(), i as int + 1));
                    assert(tags@.map_values(|t: Tag| t@) + spec_spans_from(
                        bytes,
                        results@,
                        self.dict_view(),
                        i as int + 1,
                    ) =~= total);
                }
            } else {
                if e < n {
                    let rest = substring(text, e, n);
                    tags.push(Tag::UnTagged(UntaggedContent::new(rest, e, n)));
                }
                proof {
                    assert(tags@.map_values(|t: Tag| t@) =~= total);
                }
            }
            i = i + 1;
        }
        proof {
            assert(tags@.map_values(|t: Tag| t@) == total);
        }
        Tags(tags)
    }
}

} // verus!
