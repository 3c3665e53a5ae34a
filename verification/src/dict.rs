//! The dictionary: an ordered sequence of terms, each carrying a class.
//!
//! The loader parses tab-separated lines (`term<TAB>class`) and keeps only
//! terms of at least 8 bytes; a dictionary may also be built directly from
//! entries, in which case no length filter applies.

use vstd::prelude::*;

verus! {

use vstd::string::StringSliceAdditionalSpecFns;
use vstd::utf8::{decode_utf8, encode_utf8, is_char_boundary, valid_utf8};
use crate::types::{Class, Entries, Term};
use crate::word::{lemma_after_ascii_is_boundary, substring};

broadcast use vstd::utf8::group_utf8_lib;

/// Ghost form of a dictionary entry.
pub ghost struct DictionaryEntryV {
    pub term: Seq<char>,
    pub class: Seq<char>,
}

/// A dictionary entry: a term and its class.
#[derive(Debug, Clone)]
pub struct DictionaryEntry {
    term: Term,
    class: Class,
}

impl View for DictionaryEntry {
    type V = DictionaryEntryV;

    closed spec fn view(&self) -> DictionaryEntryV {
        DictionaryEntryV { term: self.term@, class: self.class@ }
    }
}

impl DictionaryEntry {
    /// Makes an entry from a term and its class.
    pub fn new(term: Term, class: Class) -> (r: DictionaryEntry)
        ensures
            r@ == (DictionaryEntryV { term: term@, class: class@ }),
    {
        DictionaryEntry { term, class }
    }

    /// Returns the term of a dictionary entry.
    pub fn term(&self) -> (r: &String)
        ensures
            r@ == self@.term,
    {
        &self.term
    }

    /// Returns the class of a dictionary entry.
    pub fn class(&self) -> (r: &String)
        ensures
            r@ == self@.class,
    {
        &self.class
    }
}

/// The byte offset of the first tab in `bytes` at or after `i`, or the
/// length when there is none.
pub open spec fn spec_tab_index(bytes: Seq<u8>, i: int) -> int
    decreases bytes.len() - i,
    when 0 <= i <= bytes.len()
{
    if i >= bytes.len() {
        bytes.len() as int
    } else if bytes[i] == 0x09 {
        i
    } else {
        spec_tab_index(bytes, i + 1)
    }
}

/// Parsing one dictionary line: the text before the first tab is the term,
/// the text after it is the class; lines without a tab, and terms shorter
/// than 8 bytes, are dropped.
pub open spec fn spec_parse_line(line: Seq<char>) -> Option<DictionaryEntryV> {
    let bytes = encode_utf8(line);
    let t = spec_tab_index(bytes, 0);
    if t >= bytes.len() {
        None
    } else if t <= 7 {
        None
    } else {
        Some(
            DictionaryEntryV {
                term: decode_utf8(bytes.subrange(0, t)),
                class: decode_utf8(bytes.subrange(t + 1, bytes.len() as int)),
            },
        )
    }
}

/// The entries parsed from `lines[i..]`, in order, per [`spec_parse_line`].
pub open spec fn spec_parsed_entries(lines: Seq<Seq<char>>, i: int) -> Seq<DictionaryEntryV>
    decreases lines.len() - i,
    when 0 <= i <= lines.len()
{
    if i >= lines.len() {
        Seq::empty()
    } else {
        match spec_parse_line(lines[i]) {
            Option::Some(e) => seq![e] + spec_parsed_entries(lines, i + 1),
            Option::None => spec_parsed_entries(lines, i + 1),
        }
    }
}

/// Builds a [`Dictionary`] from entries.
#[derive(Debug, Clone)]
pub struct DictionaryBuilder {
    entries: Entries,
}

impl View for DictionaryBuilder {
    type V = Seq<DictionaryEntryV>;

    closed spec fn view(&self) -> Seq<DictionaryEntryV> {
        self.entries@.map_values(|e: DictionaryEntry| e@)
    }
}

impl DictionaryBuilder {
    /// A builder holding the given entries, unfiltered.
    pub fn from_entries(entries: Entries) -> (r: DictionaryBuilder)
        ensures
            r@ == entries@.map_values(|e: DictionaryEntry| e@),
    {
        DictionaryBuilder { entries }
    }

    /// Parses one tab-separated dictionary line, keeping it only when it has
    /// a class and its term is at least 8 bytes long.
    pub fn parse_line(line: &str) -> (r: Option<DictionaryEntry>)
        ensures
            r is Some <==> spec_parse_line(line@) is Some,
            r is Some ==> r->0@ == spec_parse_line(line@)->0,
    {
        let ghost bytes = line.spec_bytes();
        let s = line.as_bytes();
        let mut t: usize = 0;
        while t < s.len() && s[t] != 0x09
            invariant
                0 <= t <= s@.len(),
                s@ == bytes,
                spec_tab_index(bytes, 0) == spec_tab_index(bytes, t as int),
            decreases s@.len() - t,
        {
            t = t + 1;
        }
        proof {
            assert(spec_tab_index(bytes, 0) == t as int);
        }
        if t >= s.len() {
            return None;
        }
        if t <= 7 {
            return None;
        }
        proof {
            assert(valid_utf8(bytes));
            assert(!vstd::utf8::is_continuation_byte(bytes[t as int]));
            assert(is_char_boundary(bytes, t as int));
            lemma_after_ascii_is_boundary(bytes, t as int);
            assert(is_char_boundary(bytes, bytes.len() as int));
        }
        let term = substring(line, 0, t);
        let class = substring(line, t + 1, s.len());
        Some(DictionaryEntry { term, class })
    }

    /// Parses tab-separated dictionary lines, in order, keeping the entries
    /// that [`Self::parse_line`] accepts.
    pub fn from_lines(lines: &Vec<String>) -> (r: DictionaryBuilder)
        ensures
            r@ == spec_parsed_entries(lines@.map_values(|l: String| l@), 0),
    {
        let ghost lviews = lines@.map_values(|l: String| l@);
        let mut entries: Entries = Vec::new();
        let mut i: usize = 0;
        while i < lines.len()
            invariant
                0 <= i <= lines@.len(),
                lviews == lines@.map_values(|l: String| l@),
                spec_parsed_entries(lviews, 0) == entries@.map_values(|e: DictionaryEntry| e@)
                    + spec_parsed_entries(lviews, i as int),
            decreases lines@.len() - i,
        {
            let ghost entries0 = entries@;
            proof {
                assert(lviews[i as int] == lines@[i as int]@);
            }
            match Self::parse_line(lines[i].as_str()) {
                Option::Some(e) => {
                    let ghost ev = e@;
                    entries.push(e);
                    proof {
                        let h = |x: DictionaryEntry| x@;
                        assert(spec_parsed_entries(lviews, i as int) == seq![ev]
                            + spec_parsed_entries(lviews, i + 1));
                        assert(entries@.map_values(h) =~= entries0.map_values(h).push(ev));
                        assert(entries@.map_values(h) + spec_parsed_entries(lviews, i + 1)
                            =~= entries0.map_values(h) + spec_parsed_entries(lviews, i as int));
                    }
                },
                Option::None => {
                    proof {
                        assert(spec_parsed_entries(lviews, i as int) == spec_parsed_entries(
                            lviews,
                            i + 1,
                        ));
                    }
                },
            }
            i = i + 1;
        }
        DictionaryBuilder { entries }
    }

    /// Turns the builder into a dictionary.
    pub fn build(self) -> (r: Dictionary)
        ensures
            r@ == self@,
    {
        Dictionary { entries: self.entries }
    }
}

/// A dictionary: an ordered, index-stable sequence of entries.
#[derive(Debug, Clone)]
pub struct Dictionary {
    entries: Entries,
}

impl View for Dictionary {
    type V = Seq<DictionaryEntryV>;

    closed spec fn view(&self) -> Seq<DictionaryEntryV> {
        self.entries@.map_values(|e: DictionaryEntry| e@)
    }
}

impl Dictionary {
    /// Returns all entries of the dictionary.
    pub fn entries(&self) -> (r: &Vec<DictionaryEntry>)
        ensures
            r@.map_values(|e: DictionaryEntry| e@) == self@,
    {
        &self.entries
    }

    /// Returns all terms of the dictionary, in entry order.
    pub fn terms(&self) -> (r: Vec<Term>)
        ensures
            r@.map_values(|t: Term| t@) == self@.map_values(|e: DictionaryEntryV| e.term),
    {
        let mut terms: Vec<Term> = Vec::new();
        let mut i: usize = 0;
        while i < self.entries.len()
            invariant
                0 <= i <= self.entries@.len(),
                terms@.map_values(|t: Term| t@) == self@.subrange(0, i as int).map_values(
                    |e: DictionaryEntryV| e.term,
                ),
            decreases self.entries@.len() - i,
        {
            let ghost terms0 = terms@;
            let cloned = self.entries[i].term.clone();
            terms.push(cloned);
            proof {
                let f = |t: Term| t@;
                let g = |e: DictionaryEntryV| e.term;
                assert(terms0.map_values(f).len() == terms0.len());
                assert(self@.subrange(0, i as int).map_values(g).len() == i as int);
                assert(terms0.len() == i as int);
                assert(terms@ == terms0.push(cloned));
                assert(self@[i as int] == self.entries@[i as int]@);
                assert forall|k: int| 0 <= k <= i as int implies #[trigger] terms@.map_values(
                    f,
                )[k] == self@.subrange(0, i + 1).map_values(g)[k] by {
                    if k < i as int {
                        assert(terms0.map_values(f)[k] == self@.subrange(0, i as int).map_values(
                            g,
                        )[k]);
                        assert(terms@[k] == terms0[k]);
                        assert(self@.subrange(0, i + 1)[k] == self@.subrange(0, i as int)[k]);
                    } else {
                        assert(terms@[k] == terms0.push(cloned)[k]);
                        assert(self@.subrange(0, i + 1)[k] == self@[i as int]);
                    }
                }
                assert(terms@.map_values(f) =~= self@.subrange(0, i + 1).map_values(g));
            }
            i = i + 1;
        }
        proof {
            assert(self@.subrange(0, self@.len() as int) =~= self@);
        }
        terms
    }

    /// Returns the class of the term at `index` in the dictionary.
    pub fn get_class(&self, index: usize) -> (r: String)
        requires
            index < self@.len(),
        ensures
            r@ == self@[index as int].class,
    {
        self.entries[index].class.clone()
    }
}

} // verus!
