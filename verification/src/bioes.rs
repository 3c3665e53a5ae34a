//! The five-label (BIOES) tagging scheme.
//!
//! A tagged chunk with one token contributes a Single tag; with more, its
//! first token is Beginning, its last is End, and the tokens between are
//! Inside; untagged chunks contribute Outside tags.

use vstd::prelude::*;

verus! {

use vstd::string::StringSliceAdditionalSpecFns;
use vstd::utf8::{encode_utf8, is_char_boundary, valid_utf8};
use crate::tag::{chunk_fits, Tag, TaggedContent, TaggedContentV, Tags, TagV, UntaggedContent,
    UntaggedContentV};
use crate::tokens::{lemma_tokens_props, span_tokens, spec_tokens, split_tokens, TokenV};
use crate::word::substring;

broadcast use vstd::utf8::group_utf8_lib, vstd::slice::group_slice_axioms;

/// Ghost form of a BIOES tag.
pub ghost enum BIOESTagV {
    Beginning(TaggedContentV),
    Inside(TaggedContentV),
    Outside(UntaggedContentV),
    End(TaggedContentV),
    Single(TaggedContentV),
}

/// One token tag of the BIOES scheme.
#[derive(Debug, Clone)]
pub enum BIOESTag {
    Beginning(TaggedContent),
    Inside(TaggedContent),
    Outside(UntaggedContent),
    End(TaggedContent),
    Single(TaggedContent),
}

impl View for BIOESTag {
    type V = BIOESTagV;

    open spec fn view(&self) -> BIOESTagV {
        match self {
            BIOESTag::Beginning(t) => BIOESTagV::Beginning(t@),
            BIOESTag::Inside(t) => BIOESTagV::Inside(t@),
            BIOESTag::Outside(t) => BIOESTagV::Outside(t@),
            BIOESTag::End(t) => BIOESTagV::End(t@),
            BIOESTag::Single(t) => BIOESTagV::Single(t@),
        }
    }
}

/// The BIOES tags of one chunk: a tagged chunk with exactly one token gets
/// Single; with two or more, the first gets Beginning, the last End and
/// the middle ones Inside; every token of an untagged chunk gets Outside.
/// Each tag carries the token's text and absolute byte span, and (when not
/// Outside) the chunk's class.
pub open spec fn spec_bioes_span(span: TagV) -> Seq<BIOESTagV> {
    let toks = span_tokens(span);
    match span {
        TagV::Tagged(t) => Seq::new(
            toks.len(),
            |k: int|
                {
                    let c = TaggedContentV {
                        text: toks[k].text,
                        start: toks[k].start,
                        end: toks[k].end,
                        class: t.class,
                    };
                    if toks.len() == 1 {
                        BIOESTagV::Single(c)
                    } else if k == 0 {
                        BIOESTagV::Beginning(c)
                    } else if k == toks.len() - 1 {
                        BIOESTagV::End(c)
                    } else {
                        BIOESTagV::Inside(c)
                    }
                },
        ),
        TagV::UnTagged(_) => Seq::new(
            toks.len(),
            |k: int|
                BIOESTagV::Outside(
                    UntaggedContentV {
                        text: toks[k].text,
                        start: toks[k].start,
                        end: toks[k].end,
                    },
                ),
        ),
    }
}

/// The BIOES tags of the chunks `spans[i..]`, in order.
pub open spec fn spec_bioes_tags(spans: Seq<TagV>, i: int) -> Seq<BIOESTagV>
    decreases spans.len() - i,
    when 0 <= i <= spans.len()
{
    if i >= spans.len() {
        Seq::empty()
    } else {
        spec_bioes_span(spans[i]) + spec_bioes_tags(spans, i + 1)
    }
}

/// A token tag sequence in the BIOES scheme.
#[derive(Debug, Clone)]
pub struct BIOES {
    tags: Vec<BIOESTag>,
}

impl View for BIOES {
    type V = Seq<BIOESTagV>;

    closed spec fn view(&self) -> Seq<BIOESTagV> {
        self.tags@.map_values(|t: BIOESTag| t@)
    }
}

/// The BIOES tags of one tagged chunk.
fn bioes_tagged(t: &TaggedContent) -> (r: Vec<BIOESTag>)
    requires
        t@.start + encode_utf8(t@.text).len() <= usize::MAX,
    ensures
        r@.map_values(|x: BIOESTag| x@) == spec_bioes_span(TagV::Tagged(t@)),
{
    let text = t.original_text.as_str();
    let ghost b = text.spec_bytes();
    let toks = split_tokens(text);
    proof {
        assert(b == encode_utf8(t@.text));
        assert(valid_utf8(b));
        assert(is_char_boundary(b, 0));
        lemma_tokens_props(b, 0);
    }
    let ghost target = spec_bioes_span(TagV::Tagged(t@));
    let n = toks.len();
    let mut r: Vec<BIOESTag> = Vec::new();
    let mut k: usize = 0;
    while k < n
        invariant
            0 <= k <= toks@.len(),
            n == toks@.len(),
            b == text.spec_bytes(),
            b == encode_utf8(t@.text),
            t@.start + b.len() <= usize::MAX,
            t@.start == t.start as int,
            t@.class == t.class@,
            toks@.map_values(|x: (usize, usize)| (x.0 as int, x.1 as int)) == spec_tokens(b, 0),
            target == spec_bioes_span(TagV::Tagged(t@)),
            target.len() == toks@.len(),
            forall|q: int|
                0 <= q < spec_tokens(b, 0).len() ==> 0 <= (#[trigger] spec_tokens(b, 0)[q]).0
                    < spec_tokens(b, 0)[q].1 <= b.len() && is_char_boundary(
                    b,
                    spec_tokens(b, 0)[q].0,
                ) && is_char_boundary(b, spec_tokens(b, 0)[q].1),
            r@.map_values(|x: BIOESTag| x@) == target.subrange(0, k as int),
        decreases toks@.len() - k,
    {
        let ghost r0 = r@;
        let (a, e) = toks[k];
        proof {
            assert((a, e) == toks@[k as int]);
            assert((a as int, e as int) == spec_tokens(b, 0)[k as int]);
        }
        let txt = substring(text, a, e);
        let content = TaggedContent::new(txt, t.start + a, t.start + e, t.class.clone());
        let tag = if n == 1 {
            BIOESTag::Single(content)
        } else if k == 0 {
            BIOESTag::Beginning(content)
        } else if k == n - 1 {
            BIOESTag::End(content)
        } else {
            BIOESTag::Inside(content)
        };
        r.push(tag);
        proof {
            assert(span_tokens(TagV::Tagged(t@))[k as int] == (TokenV {
                text: vstd::utf8::decode_utf8(b.subrange(a as int, e as int)),
                start: t@.start + a as int,
                end: t@.start + e as int,
            }));
            let c = TaggedContentV {
                text: vstd::utf8::decode_utf8(b.subrange(a as int, e as int)),
                start: t@.start + a as int,
                end: t@.start + e as int,
                class: t@.class,
            };
            let newv = if toks@.len() == 1 {
                BIOESTagV::Single(c)
            } else if k == 0 {
                BIOESTagV::Beginning(c)
            } else if k as int == toks@.len() - 1 {
                BIOESTagV::End(c)
            } else {
                BIOESTagV::Inside(c)
            };
            assert(target[k as int] == newv);
            assert(r0.map_values(|x: BIOESTag| x@).len() == r0.len());
            assert(target.subrange(0, k as int).len() == k as int);
            assert(r0.len() == k as int);
            assert(r@[k as int]@ == newv);
            assert(r@.map_values(|x: BIOESTag| x@) =~= target.subrange(0, k as int + 1));
        }
        k = k + 1;
    }
    proof {
        assert(target.subrange(0, target.len() as int) =~= target);
    }
    r
}

/// The BIOES tags of one untagged chunk.
fn bioes_untagged(u: &UntaggedContent) -> (r: Vec<BIOESTag>)
    requires
        u@.start + encode_utf8(u@.text).len() <= usize::MAX,
    ensures
        r@.map_values(|x: BIOESTag| x@) == spec_bioes_span(TagV::UnTagged(u@)),
{
    let text = u.original_text.as_str();
    let ghost b = text.spec_bytes();
    let toks = split_tokens(text);
    proof {
        assert(b == encode_utf8(u@.text));
        assert(valid_utf8(b));
        assert(is_char_boundary(b, 0));
        lemma_tokens_props(b, 0);
    }
    let ghost target = spec_bioes_span(TagV::UnTagged(u@));
    let mut r: Vec<BIOESTag> = Vec::new();
    let mut k: usize = 0;
    while k < toks.len()
        invariant
            0 <= k <= toks@.len(),
            b == text.spec_bytes(),
            b == encode_utf8(u@.text),
            u@.start + b.len() <= usize::MAX,
            u@.start == u.start as int,
            toks@.map_values(|x: (usize, usize)| (x.0 as int, x.1 as int)) == spec_tokens(b, 0),
            target == spec_bioes_span(TagV::UnTagged(u@)),
            target.len() == toks@.len(),
            forall|q: int|
                0 <= q < spec_tokens(b, 0).len() ==> 0 <= (#[trigger] spec_tokens(b, 0)[q]).0
                    < spec_tokens(b, 0)[q].1 <= b.len() && is_char_boundary(
                    b,
                    spec_tokens(b, 0)[q].0,
                ) && is_char_boundary(b, spec_tokens(b, 0)[q].1),
            r@.map_values(|x: BIOESTag| x@) == target.subrange(0, k as int),
        decreases toks@.len() - k,
    {
        let ghost r0 = r@;
        let (a, e) = toks[k];
        proof {
            assert((a, e) == toks@[k as int]);
            assert((a as int, e as int) == spec_tokens(b, 0)[k as int]);
        }
        let txt = substring(text, a, e);
        r.push(BIOESTag::Outside(UntaggedContent::new(txt, u.start + a, u.start + e)));
        proof {
            assert(span_tokens(TagV::UnTagged(u@))[k as int] == (TokenV {
                text: vstd::utf8::decode_utf8(b.subrange(a as int, e as int)),
                start: u@.start + a as int,
                end: u@.start + e as int,
            }));
            let newv = BIOESTagV::Outside(
                UntaggedContentV {
                    text: vstd::utf8::decode_utf8(b.subrange(a as int, e as int)),
                    start: u@.start + a as int,
                    end: u@.start + e as int,
                },
            );
            assert(target[k as int] == newv);
            assert(r0.map_values(|x: BIOESTag| x@).len() == r0.len());
            assert(target.subrange(0, k as int).len() == k as int);
            assert(r0.len() == k as int);
            assert(r@[k as int]@ == newv);
            assert(r@.map_values(|x: BIOESTag| x@) =~= target.subrange(0, k as int + 1));
        }
        k = k + 1;
    }
    proof {
        assert(target.subrange(0, target.len() as int) =~= target);
    }
    r
}

impl BIOES {
    /// The token tags, in line order.
    pub fn tags(&self) -> (r: &Vec<BIOESTag>)
        ensures
            r@.map_values(|t: BIOESTag| t@) == self@,
    {
        &self.tags
    }

    /// Tokenizes a chunk sequence into BIOES token tags.
    pub fn from(tags: Tags) -> (r: BIOES)
        requires
            forall|j: int| 0 <= j < tags@.len() ==> chunk_fits(#[trigger] tags@[j]),
        ensures
            r@ == spec_bioes_tags(tags@, 0),
    {
        let ghost tv = tags@;
        let mut out: Vec<BIOESTag> = Vec::new();
        let mut i: usize = 0;
        while i < tags.0.len()
            invariant
                0 <= i <= tags.0@.len(),
                tv == tags@,
                tv.len() == tags.0@.len(),
                forall|j: int| 0 <= j < tv.len() ==> chunk_fits(#[trigger] tv[j]),
                out@.map_values(|x: BIOESTag| x@) + spec_bioes_tags(tv, i as int)
                    == spec_bioes_tags(tv, 0),
            decreases tags.0@.len() - i,
        {
            let ghost out0 = out@;
            proof {
                assert(tv[i as int] == tags.0@[i as int]@);
                assert(chunk_fits(tv[i as int]));
            }
            let mut v = match &tags.0[i] {
                Tag::Tagged(t) => bioes_tagged(t),
                Tag::UnTagged(u) => bioes_untagged(u),
            };
            let ghost v0 = v@;
            out.append(&mut v);
            proof {
                assert(spec_bioes_tags(tv, i as int) == spec_bioes_span(tv[i as int])
                    + spec_bioes_tags(tv, i + 1));
                assert(out@.map_values(|x: BIOESTag| x@) =~= out0.map_values(|x: BIOESTag| x@)
                    + v0.map_values(|x: BIOESTag| x@));
                assert(out@.map_values(|x: BIOESTag| x@) + spec_bioes_tags(tv, i + 1)
                    =~= out0.map_values(|x: BIOESTag| x@) + spec_bioes_tags(tv, i as int));
            }
            i = i + 1;
        }
        proof {
            assert(spec_bioes_tags(tv, tv.len() as int) =~= Seq::<BIOESTagV>::empty());
            assert(out@.map_values(|x: BIOESTag| x@) =~= spec_bioes_tags(tv, 0));
        }
        BIOES { tags: out }
    }
}

} // verus!
