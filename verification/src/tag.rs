use vstd::prelude::*;

verus! {

use crate::types::{Class, EndByte, StartByte, Term};

/// Ghost form of a tagged chunk: the chunk text, its byte span inside the
/// original line (`start` inclusive, `end` exclusive) and its class.
pub ghost struct TaggedContentV {
    pub text: Seq<char>,
    pub start: int,
    pub end: int,
    pub class: Seq<char>,
}

/// Ghost form of an untagged chunk: the chunk text and its byte span inside
/// the original line (`start` inclusive, `end` exclusive).
pub ghost struct UntaggedContentV {
    pub text: Seq<char>,
    pub start: int,
    pub end: int,
}

/// Ghost form of a chunk, either tagged with a class or untagged.
pub ghost enum TagV {
    Tagged(TaggedContentV),
    UnTagged(UntaggedContentV),
}

/// A chunk whose absolute token offsets fit the machine word: its start
/// offset plus its text's byte length stays within `usize`.  Chunks
/// produced by tagging a line always fit, since their offsets lie inside
/// the line.
pub open spec fn chunk_fits(t: TagV) -> bool {
    match t {
        TagV::Tagged(c) => c.start + vstd::utf8::encode_utf8(c.text).len() <= usize::MAX,
        TagV::UnTagged(c) => c.start + vstd::utf8::encode_utf8(c.text).len() <= usize::MAX,
    }
}

/// A piece of text that matched a dictionary term, together with its byte
/// span in the original line (`start` inclusive, `end` exclusive) and the
/// class of the matched term.
#[derive(Debug, Clone)]
pub struct TaggedContent {
    pub original_text: Term,
    pub start: StartByte,
    pub end: EndByte,
    pub class: Class,
}

impl TaggedContent {
    pub fn new(original_text: Term, start: StartByte, end: EndByte, class: Class) -> (r:
        TaggedContent)
        ensures
            r@ == (TaggedContentV {
                text: original_text@,
                start: start as int,
                end: end as int,
                class: class@,
            }),
    {
        TaggedContent { original_text, start, end, class }
    }
}

impl View for TaggedContent {
    type V = TaggedContentV;

    open spec fn view(&self) -> TaggedContentV {
        TaggedContentV {
            text: self.original_text@,
            start: self.start as int,
            end: self.end as int,
            class: self.class@,
        }
    }
}

/// A piece of text that matched no dictionary term, together with its byte
/// span in the original line (`start` inclusive, `end` exclusive).
#[derive(Debug, Clone)]
pub struct UntaggedContent {
    pub original_text: Term,
    pub start: StartByte,
    pub end: EndByte,
}

impl UntaggedContent {
    pub fn new(original_text: Term, start: StartByte, end: EndByte) -> (r: UntaggedContent)
        ensures
            r@ == (UntaggedContentV {
                text: original_text@,
                start: start as int,
                end: end as int,
            }),
    {
        UntaggedContent { original_text, start, end }
    }
}

impl View for UntaggedContent {
    type V = UntaggedContentV;

    open spec fn view(&self) -> UntaggedContentV {
        UntaggedContentV {
            text: self.original_text@,
            start: self.start as int,
            end: self.end as int,
        }
    }
}

/// One chunk of a segmented line.
#[derive(Debug, Clone)]
pub enum Tag {
    Tagged(TaggedContent),
    UnTagged(UntaggedContent),
}

impl View for Tag {
    type V = TagV;

    open spec fn view(&self) -> TagV {
        match self {
            Tag::Tagged(t) => TagV::Tagged(t@),
            Tag::UnTagged(t) => TagV::UnTagged(t@),
        }
    }
}

/// Wraps a tagged chunk as a chunk.
impl From<TaggedContent> for Tag {
    fn from(tagged_content: TaggedContent) -> (r: Self) {
        Tag::Tagged(tagged_content)
    }
}

impl vstd::std_specs::convert::FromSpecImpl<TaggedContent> for Tag {
    open spec fn obeys_from_spec() -> bool {
        true
    }

    open spec fn from_spec(v: TaggedContent) -> Tag {
        Tag::Tagged(v)
    }
}

/// Wraps an untagged chunk as a chunk.
impl From<UntaggedContent> for Tag {
    fn from(untagged_content: UntaggedContent) -> (r: Self) {
        Tag::UnTagged(untagged_content)
    }
}

impl vstd::std_specs::convert::FromSpecImpl<UntaggedContent> for Tag {
    open spec fn obeys_from_spec() -> bool {
        true
    }

    open spec fn from_spec(v: UntaggedContent) -> Tag {
        Tag::UnTagged(v)
    }
}

/// The chunk sequence produced for one input line.
#[derive(Debug, Clone)]
pub struct Tags(pub Vec<Tag>);

impl View for Tags {
    type V = Seq<TagV>;

    open spec fn view(&self) -> Seq<TagV> {
        self.0@.map_values(|t: Tag| t@)
    }
}

} // verus!
