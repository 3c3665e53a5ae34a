//! The three-label (IOB) tagging scheme.
//!
//! Each tagged chunk contributes a Beginning tag for its first token and
//! Inside tags for the rest; untagged chunks contribute Outside tags.

use vstd::prelude::*;

verus! {

use vstd::string::StringSliceAdditionalSpecFns;
use vstd::utf8::{encode_utf8, is_char_boundary, valid_utf8};
use crate::tag::{chunk_fits, Tag, TaggedContent, TaggedContentV, Tags, TagV, UntaggedContent,
    UntaggedContentV};
use crate::tokens::{lemma_tokens_props, span_tokens, spec_tokens, split_tokens, TokenV};
use crate::word::substring;

broadcast use vstd::utf8::group_utf8_lib, vstd::slice::group_slice_axioms;

/// Ghost form of an IOB tag.
pub ghost enum IOBTagV {
    Inside(TaggedContentV),
    Outside(UntaggedContentV),
    Beginning(TaggedContentV),
}

/// One token tag of the IOB scheme.
#[derive(Debug, Clone)]
pub enum IOBTag {
    Inside(TaggedContent),
    Outside(UntaggedContent),
    Beginning(TaggedContent),
}

impl View for IOBTag {
    type V = IOBTagV;

    open spec fn view(&self) -> IOBTagV {
        match self {
            IOBTag::Inside(t) => IOBTagV::Inside(t@),
            IOBTag::Outside(t) => IOBTagV::Outside(t@),
            IOBTag::Beginning(t) => IOBTagV::Beginning(t@),
        }
    }
}

/// The IOB tags of one chunk: the first token of a tagged chunk is
/// Beginning, its other tokens are Inside, and every token of an untagged
/// chunk is Outside; each tag carries the token's text and absolute byte
/// span, and (when not Outside) the chunk's class.
pub open spec fn spec_iob_span(span: TagV) -> Seq<IOBTagV> {
    let toks = span_tokens(span);
    match span {
        TagV::Tagged(t) => Seq::new(
            toks.len(),
            |k: int|
                if k == 0 {
                    IOBTagV::Beginning(
                        TaggedContentV {
                            text: toks[k].text,
                            start: toks[k].start,
                            end: toks[k].end,
                            class: t.class,
                        },
                    )
                } else {
                    IOBTagV::Inside(
                        TaggedContentV {
                            text: toks[k].text,
                            start: toks[k].start,
                            end: toks[k].end,
                            class: t.class,
                        },
                    )
                },
        ),
        TagV::UnTagged(_) => Seq::new(
            toks.len(),
            |k: int|
                IOBTagV::Outside(
                    UntaggedContentV {
                        text: toks[k].text,
                        start: toks[k].start,
                        end: toks[k].end,
                    },
                ),
        ),
    }
}

/// The IOB tags of the chunks `spans[i..]`, in order.
pub open spec fn spec_iob_tags(spans: Seq<TagV>, i: int) -> Seq<IOBTagV>
    decreases spans.len() - i,
    when 0 <= i <= spans.len()
{
    if i >= spans.len() {
        Seq::empty()
    } else {
        spec_iob_span(spans[i]) + spec_iob_tags(spans, i + 1)
    }
}

/// A token tag sequence in the IOB scheme.
#[derive(Debug, Clone)]
pub struct IOB {
    tags: Vec<IOBTag>,
}

impl View for IOB {
    type V = Seq<IOBTagV>;

    closed spec fn view(&self) -> Seq<IOBTagV> {
        self.tags@.map_values(|t: IOBTag| t@)
    }
}

/// The IOB tags of one tagged chunk.
fn iob_tagged(t: &TaggedContent) -> (r: Vec<IOBTag>)
    requires
        t@.start + encode_utf8(t@.text).len() <= usize::MAX,
    ensures
        r@.map_values(|x: IOBTag| x@) == spec_iob_span(TagV::Tagged(t@)),
{
    let text = t.original_text.as_str();
    let ghost b = text.spec_bytes();
    let toks = split_tokens(text);
    proof {
        assert(b == encode_utf8(t@.text));
        assert(valid_utf8(b));
        assert(is_char_boundary(b, 0));
        lemma_tokens_props(b, 0);
    }
    let ghost target = spec_iob_span(TagV::Tagged(t@));
    let mut r: Vec<IOBTag> = Vec::new();
    let mut k: usize = 0;
    while k < toks.len()
        invariant
            0 <= k <= toks@.len(),
            b == text.spec_bytes(),
            b == encode_utf8(t@.text),
            t@.start + b.len() <= usize::MAX,
            t@.start == t.start as int,
            t@.class == t.class@,
            toks@.map_values(|x: (usize, usize)| (x.0 as int, x.1 as int)) == spec_tokens(b, 0),
            target == spec_iob_span(TagV::Tagged(t@)),
            target.len() == toks@.len(),
            forall|q: int|
                0 <= q < spec_tokens(b, 0).len() ==> 0 <= (#[trigger] spec_tokens(b, 0)[q]).0
                    < spec_tokens(b, 0)[q].1 <= b.len() && is_char_boundary(
                    b,
                    spec_tokens(b, 0)[q].0,
                ) && is_char_boundary(b, spec_tokens(b, 0)[q].1),
            r@.map_values(|x: IOBTag| x@) == target.subrange(0, k as int),
        decreases toks@.len() - k,
    {
        let ghost r0 = r@;
        let (a, e) = toks[k];
        proof {
            assert((a, e) == toks@[k as int]);
            assert((a as int, e as int) == spec_tokens(b, 0)[k as int]);
        }
        let txt = substring(text, a, e);
        let tag = if k == 0 {
            IOBTag::Beginning(TaggedContent::new(txt, t.start + a, t.start + e, t.class.clone()))
        } else {
            IOBTag::Inside(TaggedContent::new(txt, t.start + a, t.start + e, t.class.clone()))
        };
        r.push(tag);
        proof {
            assert(span_tokens(TagV::Tagged(t@))[k as int] == (TokenV {
                text: vstd::utf8::decode_utf8(b.subrange(a as int, e as int)),
                start: t@.start + a as int,
                end: t@.start + e as int,
            }));
            let newv = if k == 0 {
                IOBTagV::Beginning(
                    TaggedContentV {
                        text: vstd::utf8::decode_utf8(b.subrange(a as int, e as int)),
                        start: t@.start + a as int,
                        end: t@.start + e as int,
                        class: t@.class,
                    },
                )
            } else {
                IOBTagV::Inside(
                    TaggedContentV {
                        text: vstd::utf8::decode_utf8(b.subrange(a as int, e as int)),
                        start: t@.start + a as int,
                        end: t@.start + e as int,
                        class: t@.class,
                    },
                )
            };
            assert(target[k as int] == newv);
            assert(r0.map_values(|x: IOBTag| x@).len() == r0.len());
            assert(target.subrange(0, k as int).len() == k as int);
            assert(r0.len() == k as int);
            assert(r@[k as int]@ == newv);
            assert(r@.map_values(|x: IOBTag| x@)[k as int] == newv);
            assert(r@.map_values(|x: IOBTag| x@) =~= target.subrange(0, k as int + 1));
        }
        k = k + 1;
    }
    proof {
        assert(target.subrange(0, target.len() as int) =~= target);
    }
    r
}

/// The IOB tags of one untagged chunk.
fn iob_untagged(u: &UntaggedContent) -> (r: Vec<IOBTag>)
    requires
        u@.start + encode_utf8(u@.text).len() <= usize::MAX,
    ensures
        r@.map_values(|x: IOBTag| x@) == spec_iob_span(TagV::UnTagged(u@)),
{
    let text = u.original_text.as_str();
    let ghost b = text.spec_bytes();
    let toks = split_tokens(text);
    proof {
        assert(b == encode_utf8(u@.text));
        assert(valid_utf8(b));
        assert(is_char_boundary(b, 0));
        lemma_tokens_props(b, 0);
    }
    let ghost target = spec_iob_span(TagV::UnTagged(u@));
    let mut r: Vec<IOBTag> = Vec::new();
    let mut k: usize = 0;
    while k < toks.len()
        invariant
            0 <= k <= toks@.len(),
            b == text.spec_bytes(),
            b == encode_utf8(u@.text),
            u@.start + b.len() <= usize::MAX,
            u@.start == u.start as int,
            toks@.map_values(|x: (usize, usize)| (x.0 as int, x.1 as int)) == spec_tokens(b, 0),
            target == spec_iob_span(TagV::UnTagged(u@)),
            target.len() == toks@.len(),
            forall|q: int|
                0 <= q < spec_tokens(b, 0).len() ==> 0 <= (#[trigger] spec_tokens(b, 0)[q]).0
                    < spec_tokens(b, 0)[q].1 <= b.len() && is_char_boundary(
                    b,
                    spec_tokens(b, 0)[q].0,
                ) && is_char_boundary(b, spec_tokens(b, 0)[q].1),
            r@.map_values(|x: IOBTag| x@) == target.subrange(0, k as int),
        decreases toks@.len() - k,
    {
        let ghost r0 = r@;
        let (a, e) = toks[k];
        proof {
            assert((a, e) == toks@[k as int]);
            assert((a as int, e as int) == spec_tokens(b, 0)[k as int]);
        }
        let txt = substring(text, a, e);
        r.push(IOBTag::Outside(UntaggedContent::new(txt, u.start + a, u.start + e)));
        proof {
            assert(span_tokens(TagV::UnTagged(u@))[k as int] == (TokenV {
                text: vstd::utf8::decode_utf8(b.subrange(a as int, e as int)),
                start: u@.start + a as int,
                end: u@.start + e as int,
            }));
            let newv = IOBTagV::Outside(
                UntaggedContentV {
                    text: vstd::utf8::decode_utf8(b.subrange(a as int, e as int)),
                    start: u@.start + a as int,
                    end: u@.start + e as int,
                },
            );
            assert(target[k as int] == newv);
            assert(r0.map_values(|x: IOBTag| x@).len() == r0.len());
            assert(target.subrange(0, k as int).len() == k as int);
            assert(r0.len() == k as int);
            assert(r@[k as int]@ == newv);
            assert(r@.map_values(|x: IOBTag| x@) =~= target.subrange(0, k as int + 1));
        }
        k = k + 1;
    }
    proof {
        assert(target.subrange(0, target.len() as int) =~= target);
    }
    r
}

impl IOB {
    /// The token tags, in line order.
    pub fn tags(&self) -> (r: &Vec<IOBTag>)
        ensures
            r@.map_values(|t: IOBTag| t@) == self@,
    {
        &self.tags
    }

    /// Tokenizes a chunk sequence into IOB token tags.
    pub fn from(tags: Tags) -> (r: IOB)
        requires
            forall|j: int| 0 <= j < tags@.len() ==> chunk_fits(#[trigger] tags@[j]),
        ensures
            r@ == spec_iob_tags(tags@, 0),
    {
        let ghost tv = tags@;
        let mut out: Vec<IOBTag> = Vec::new();
        let mut i: usize = 0;
        while i < tags.0.len()
            invariant
                0 <= i <= tags.0@.len(),
                tv == tags@,
                tv.len() == tags.0@.len(),
                forall|j: int| 0 <= j < tv.len() ==> chunk_fits(#[trigger] tv[j]),
                out@.map_values(|x: IOBTag| x@) + spec_iob_tags(tv, i as int) == spec_iob_tags(
                    tv,
                    0,
                ),
            decreases tags.0@.len() - i,
        {
            let ghost out0 = out@;
            proof {
                assert(tv[i as int] == tags.0@[i as int]@);
                assert(chunk_fits(tv[i as int]));
            }
            let mut v = match &tags.0[i] {
                Tag::Tagged(t) => iob_tagged(t),
                Tag::UnTagged(u) => iob_untagged(u),
            };
            let ghost v0 = v@;
            out.append(&mut v);
            proof {
                assert(spec_iob_tags(tv, i as int) == spec_iob_span(tv[i as int]) + spec_iob_tags(
                    tv,
                    i + 1,
                ));
                assert(out@.map_values(|x: IOBTag| x@) =~= out0.map_values(|x: IOBTag| x@)
                    + v0.map_values(|x: IOBTag| x@));
                assert(out@.map_values(|x: IOBTag| x@) + spec_iob_tags(tv, i + 1)
                    =~= out0.map_values(|x: IOBTag| x@) + spec_iob_tags(tv, i as int));
            }
            i = i + 1;
        }
        proof {
            assert(spec_iob_tags(tv, tv.len() as int) =~= Seq::<IOBTagV>::empty());
            assert(out@.map_values(|x: IOBTag| x@) =~= spec_iob_tags(tv, 0));
        }
        IOB { tags: out }
    }
}

} // verus!
