//! The guarantees the tagging pipeline gives as a whole.
//!
//! The chunk sequence produced for a line covers its bytes without gap or
//! overlap, and the token tags produced from it reconstruct the line: each
//! token's text is exactly the bytes at its recorded span, tokens are
//! ordered and disjoint, and every byte between tokens is a whitespace
//! separator.  When the matcher reports nothing, every token is Outside.

use vstd::prelude::*;

verus! {

use vstd::utf8::{decode_utf8, encode_utf8, is_char_boundary, valid_utf8};
use crate::bioes::{spec_bioes_span, spec_bioes_tags, BIOESTagV};
use crate::iob::{spec_iob_span, spec_iob_tags, IOBTagV};
use crate::tag::TagV;
use crate::tagger::{spec_spans, spec_spans_from, Tagger};
use crate::tokens::{
    abs_tokens,
    is_sep_byte,
    lemma_tokens_props,
    line_tokens,
    not_in_tokens,
    span_tokens,
    spec_tokens,
    TokenV,
};
use crate::types::FindResult;
use crate::word::{
    lemma_filter_matches_wf,
    lemma_subrange_valid,
    matches_wf,
    spec_match_kept,
};

broadcast use vstd::utf8::group_utf8_lib;

/// The start byte offset of a chunk.
pub open spec fn span_start(t: TagV) -> int {
    match t {
        TagV::Tagged(c) => c.start,
        TagV::UnTagged(c) => c.start,
    }
}

/// The end byte offset (exclusive) of a chunk.
pub open spec fn span_end(t: TagV) -> int {
    match t {
        TagV::Tagged(c) => c.end,
        TagV::UnTagged(c) => c.end,
    }
}

/// The text of a chunk.
pub open spec fn span_text(t: TagV) -> Seq<char> {
    match t {
        TagV::Tagged(c) => c.text,
        TagV::UnTagged(c) => c.text,
    }
}

/// A chunk is well formed for a line when its span lies inside the line
/// and its text is exactly the bytes of its span.
pub open spec fn span_wf(bytes: Seq<u8>, t: TagV) -> bool {
    &&& 0 <= span_start(t) <= span_end(t) <= bytes.len()
    &&& encode_utf8(span_text(t)) == bytes.subrange(span_start(t), span_end(t))
}

/// A chunk sequence covers a line when the chunks are well formed and
/// contiguous, the first starts at offset 0 and the last ends at the
/// line's byte length: no byte is covered twice or skipped.
pub open spec fn spans_cover(bytes: Seq<u8>, spans: Seq<TagV>) -> bool {
    &&& spans.len() > 0
    &&& span_start(spans[0]) == 0
    &&& span_end(spans[spans.len() - 1]) == bytes.len()
    &&& forall|j: int| 0 <= j < spans.len() ==> span_wf(bytes, #[trigger] spans[j])
    &&& forall|j: int|
        0 <= j < spans.len() - 1 ==> span_end(#[trigger] spans[j]) == span_start(spans[j + 1])
}

#[verifier::rlimit(100)]
proof fn lemma_spans_from_cover(
    bytes: Seq<u8>,
    ms: Seq<FindResult>,
    dict: Seq<crate::dict::DictionaryEntryV>,
    i: int,
)
    requires
        valid_utf8(bytes),
        matches_wf(bytes, ms, 0),
        0 <= i < ms.len(),
    ensures
        ({
            let sp = spec_spans_from(bytes, ms, dict, i);
            &&& sp.len() > 0
            &&& span_start(sp[0]) == ms[i].0 as int
            &&& span_end(sp[sp.len() - 1]) == bytes.len()
            &&& forall|j: int| 0 <= j < sp.len() ==> span_wf(bytes, #[trigger] sp[j])
            &&& forall|j: int|
                0 <= j < sp.len() - 1 ==> span_end(#[trigger] sp[j]) == span_start(sp[j + 1])
        }),
    decreases ms.len() - i,
{
    let sp = spec_spans_from(bytes, ms, dict, i);
    let m = ms[i];
    let s = m.0 as int;
    let e = m.1 as int;
    assert(spec_match_kept(bytes, s, e));
    lemma_subrange_valid(bytes, s, e);
    let tagged = crate::tagger::spec_tagged(bytes, s, e, crate::tagger::class_of(dict, m.2 as int));
    assert(span_wf(bytes, tagged));
    if i + 1 < ms.len() {
        let s2 = ms[i + 1].0 as int;
        assert(ms[i].1 as int <= ms[i + 1].0 as int);
        assert(spec_match_kept(bytes, s2, ms[i + 1].1 as int));
        lemma_subrange_valid(bytes, e, s2);
        let gap = crate::tagger::spec_untagged(bytes, e, s2);
        assert(span_wf(bytes, gap));
        lemma_spans_from_cover(bytes, ms, dict, i + 1);
        let rest = spec_spans_from(bytes, ms, dict, i + 1);
        assert(sp == seq![tagged, gap] + rest);
        assert(sp[sp.len() - 1] == rest[rest.len() - 1]);
        assert forall|j: int| 0 <= j < sp.len() implies span_wf(bytes, #[trigger] sp[j]) by {
            if j == 0 {
                assert(sp[j] == tagged);
            } else if j == 1 {
                assert(sp[j] == gap);
            } else {
                assert(sp[j] == rest[j - 2]);
            }
        }
        assert forall|j: int| 0 <= j < sp.len() - 1 implies span_end(#[trigger] sp[j])
            == span_start(sp[j + 1]) by {
            if j == 0 {
                assert(sp[0] == tagged);
                assert(sp[1] == gap);
            } else if j == 1 {
                assert(sp[1] == gap);
                assert(sp[2] == rest[0]);
                assert(span_start(rest[0]) == ms[i + 1].0 as int);
            } else {
                assert(sp[j] == rest[j - 2]);
                assert(sp[j + 1] == rest[j - 1]);
            }
        }
    } else {
        if e < bytes.len() {
            assert(is_char_boundary(bytes, bytes.len() as int));
            lemma_subrange_valid(bytes, e, bytes.len() as int);
            let tail = crate::tagger::spec_untagged(bytes, e, bytes.len() as int);
            assert(span_wf(bytes, tail));
            assert(sp == seq![tagged, tail]);
        } else {
            assert(sp == seq![tagged]);
        }
    }
}

/// The chunk sequence produced for a line covers the line: chunks are
/// contiguous and non-overlapping, the first starts at offset 0, the last
/// ends at the line's byte length, and each chunk's text is exactly the
/// bytes of its span.
pub proof fn lemma_spans_cover(
    bytes: Seq<u8>,
    ms: Seq<FindResult>,
    dict: Seq<crate::dict::DictionaryEntryV>,
)
    requires
        valid_utf8(bytes),
        matches_wf(bytes, ms, 0),
    ensures
        spans_cover(bytes, spec_spans(bytes, ms, dict)),
{
    let sp = spec_spans(bytes, ms, dict);
    assert(is_char_boundary(bytes, 0));
    assert(is_char_boundary(bytes, bytes.len() as int));
    if ms.len() == 0 {
        lemma_subrange_valid(bytes, 0, bytes.len() as int);
        assert(sp == seq![crate::tagger::spec_untagged(bytes, 0, bytes.len() as int)]);
        assert(span_wf(bytes, sp[0]));
    } else {
        lemma_spans_from_cover(bytes, ms, dict, 0);
        let body = spec_spans_from(bytes, ms, dict, 0);
        let s0 = ms[0].0 as int;
        assert(spec_match_kept(bytes, s0, ms[0].1 as int));
        if s0 > 0 {
            lemma_subrange_valid(bytes, 0, s0);
            let lead = crate::tagger::spec_untagged(bytes, 0, s0);
            assert(span_wf(bytes, lead));
            assert(sp == seq![lead] + body);
            assert(sp[sp.len() - 1] == body[body.len() - 1]);
            assert forall|j: int| 0 <= j < sp.len() implies span_wf(bytes, #[trigger] sp[j]) by {
                if j == 0 {
                    assert(sp[j] == lead);
                } else {
                    assert(sp[j] == body[j - 1]);
                }
            }
            assert forall|j: int| 0 <= j < sp.len() - 1 implies span_end(#[trigger] sp[j])
                == span_start(sp[j + 1]) by {
                if j == 0 {
                    assert(sp[0] == lead);
                    assert(sp[1] == body[0]);
                } else {
                    assert(sp[j] == body[j - 1]);
                    assert(sp[j + 1] == body[j]);
                }
            }
        } else {
            assert(sp == body);
        }
    }
}

/// Whether `pos` lies in none of the tokens' spans.
pub open spec fn token_free(toks: Seq<TokenV>, pos: int) -> bool {
    forall|k: int| 0 <= k < toks.len() ==> !((#[trigger] toks[k]).start <= pos < toks[k].end)
}

/// A token sequence covers a line when the tokens are non-empty, ordered,
/// disjoint spans of the line, each token's text is exactly the bytes at
/// its span, and every byte of the line outside all token spans is a
/// whitespace separator.  Concatenating the token texts with the original
/// separators between them therefore reconstructs the line exactly.
pub open spec fn tokens_cover(bytes: Seq<u8>, toks: Seq<TokenV>) -> bool {
    &&& forall|k: int|
        0 <= k < toks.len() ==> 0 <= (#[trigger] toks[k]).start < toks[k].end <= bytes.len()
    &&& forall|k: int|
        0 <= k < toks.len() ==> encode_utf8((#[trigger] toks[k]).text) == bytes.subrange(
            toks[k].start,
            toks[k].end,
        )
    &&& forall|k: int| 0 <= k < toks.len() - 1 ==> (#[trigger] toks[k]).end <= toks[k + 1].start
    &&& forall|pos: int|
        0 <= pos < bytes.len() && token_free(toks, pos) ==> is_sep_byte(#[trigger] bytes[pos])
}

proof fn lemma_span_tokens_cover(bytes: Seq<u8>, span: TagV)
    requires
        valid_utf8(bytes),
        span_wf(bytes, span),
    ensures
        ({
            let ts = span_tokens(span);
            let c = span_start(span);
            let d = span_end(span);
            &&& forall|k: int|
                0 <= k < ts.len() ==> c <= (#[trigger] ts[k]).start < ts[k].end <= d
            &&& forall|k: int|
                0 <= k < ts.len() ==> encode_utf8((#[trigger] ts[k]).text) == bytes.subrange(
                    ts[k].start,
                    ts[k].end,
                )
            &&& forall|k: int| 0 <= k < ts.len() - 1 ==> (#[trigger] ts[k]).end <= ts[k + 1].start
            &&& forall|pos: int|
                c <= pos < d && token_free(ts, pos) ==> is_sep_byte(#[trigger] bytes[pos])
        }),
{
    let ts = span_tokens(span);
    let c = span_start(span);
    let d = span_end(span);
    let sb = encode_utf8(span_text(span));
    assert(sb == bytes.subrange(c, d));
    assert(valid_utf8(sb));
    assert(is_char_boundary(sb, 0));
    lemma_tokens_props(sb, 0);
    let lts = spec_tokens(sb, 0);
    assert(ts == abs_tokens(span_text(span), c));
    assert(ts.len() == lts.len());
    assert forall|k: int| 0 <= k < ts.len() implies c <= (#[trigger] ts[k]).start < ts[k].end <= d
        && encode_utf8(ts[k].text) == bytes.subrange(ts[k].start, ts[k].end) by {
        let a = lts[k].0;
        let b2 = lts[k].1;
        assert(ts[k] == (TokenV { text: decode_utf8(sb.subrange(a, b2)), start: c + a, end: c + b2 }));
        assert(0 <= a < b2 <= sb.len());
        assert(is_char_boundary(sb, a));
        assert(is_char_boundary(sb, b2));
        lemma_subrange_valid(sb, a, b2);
        assert(sb.subrange(a, b2) =~= bytes.subrange(c + a, c + b2));
    }
    assert forall|k: int| 0 <= k < ts.len() - 1 implies (#[trigger] ts[k]).end <= ts[k + 1].start by {
        assert(lts[k].1 <= lts[k + 1].0);
        assert(ts[k].end == c + lts[k].1);
        assert(ts[k + 1].start == c + lts[k + 1].0);
    }
    assert forall|pos: int| c <= pos < d && token_free(ts, pos) implies is_sep_byte(
        #[trigger] bytes[pos],
    ) by {
        let local = pos - c;
        assert forall|k: int| 0 <= k < lts.len() implies !((#[trigger] lts[k]).0 <= local
            < lts[k].1) by {
            assert(ts[k].start == c + lts[k].0);
            assert(ts[k].end == c + lts[k].1);
            assert(!(ts[k].start <= pos < ts[k].end));
        }
        assert(not_in_tokens(lts, local));
        assert(is_sep_byte(sb[local]));
        assert(sb[local] == bytes[pos]);
    }
}

proof fn lemma_line_tokens_cover_from(bytes: Seq<u8>, spans: Seq<TagV>, i: int)
    requires
        valid_utf8(bytes),
        0 <= i <= spans.len(),
        spans.len() > 0,
        span_end(spans[spans.len() - 1]) == bytes.len(),
        forall|j: int| 0 <= j < spans.len() ==> span_wf(bytes, #[trigger] spans[j]),
        forall|j: int|
            0 <= j < spans.len() - 1 ==> span_end(#[trigger] spans[j]) == span_start(spans[j + 1]),
    ensures
        ({
            let ts = line_tokens(spans, i);
            let c = if i < spans.len() {
                span_start(spans[i])
            } else {
                bytes.len() as int
            };
            &&& forall|k: int|
                0 <= k < ts.len() ==> c <= (#[trigger] ts[k]).start < ts[k].end <= bytes.len()
            &&& forall|k: int|
                0 <= k < ts.len() ==> encode_utf8((#[trigger] ts[k]).text) == bytes.subrange(
                    ts[k].start,
                    ts[k].end,
                )
            &&& forall|k: int| 0 <= k < ts.len() - 1 ==> (#[trigger] ts[k]).end <= ts[k + 1].start
            &&& forall|pos: int|
                c <= pos < bytes.len() && token_free(ts, pos) ==> is_sep_byte(
                    #[trigger] bytes[pos],
                )
        }),
    decreases spans.len() - i,
{
    let ts = line_tokens(spans, i);
    if i >= spans.len() {
    } else {
        let c = span_start(spans[i]);
        let d = span_end(spans[i]);
        let sts = span_tokens(spans[i]);
        lemma_span_tokens_cover(bytes, spans[i]);
        lemma_line_tokens_cover_from(bytes, spans, i + 1);
        let rts = line_tokens(spans, i + 1);
        let c2 = if i + 1 < spans.len() {
            span_start(spans[i + 1])
        } else {
            bytes.len() as int
        };
        assert(c2 == d);
        assert(ts == sts + rts);
        assert forall|k: int| 0 <= k < ts.len() implies c <= (#[trigger] ts[k]).start < ts[k].end
            <= bytes.len() && encode_utf8(ts[k].text) == bytes.subrange(
            ts[k].start,
            ts[k].end,
        ) by {
            if k < sts.len() {
                assert(ts[k] == sts[k]);
            } else {
                assert(ts[k] == rts[k - sts.len()]);
            }
        }
        assert forall|k: int| 0 <= k < ts.len() - 1 implies (#[trigger] ts[k]).end <= ts[k
            + 1].start by {
            if k + 1 < sts.len() {
                assert(ts[k] == sts[k]);
                assert(ts[k + 1] == sts[k + 1]);
            } else if k + 1 == sts.len() {
                assert(ts[k] == sts[k]);
                if rts.len() > 0 {
                    assert(ts[k + 1] == rts[0]);
                    assert(sts[k].end <= d);
                    assert(d <= rts[0].start);
                }
            } else {
                assert(ts[k] == rts[k - sts.len()]);
                assert(ts[k + 1] == rts[k + 1 - sts.len()]);
            }
        }
        assert forall|pos: int| c <= pos < bytes.len() && token_free(ts, pos) implies is_sep_byte(
            #[trigger] bytes[pos],
        ) by {
            if pos < d {
                assert forall|k: int| 0 <= k < sts.len() implies !((#[trigger] sts[k]).start <= pos
                    < sts[k].end) by {
                    assert(ts[k] == sts[k]);
                    assert(!(ts[k].start <= pos < ts[k].end));
                }
                assert(token_free(sts, pos));
            } else {
                assert forall|k: int| 0 <= k < rts.len() implies !((#[trigger] rts[k]).start <= pos
                    < rts[k].end) by {
                    assert(ts[k + sts.len()] == rts[k]);
                    assert(!(ts[k + sts.len()].start <= pos < ts[k + sts.len()].end));
                }
                assert(token_free(rts, pos));
            }
        }
    }
}

/// The tokens of a covering chunk sequence cover the line.
pub proof fn lemma_line_tokens_cover(bytes: Seq<u8>, spans: Seq<TagV>)
    requires
        valid_utf8(bytes),
        spans_cover(bytes, spans),
    ensures
        tokens_cover(bytes, line_tokens(spans, 0)),
{
    lemma_line_tokens_cover_from(bytes, spans, 0);
}

/// Every chunk produced by tagging a line fits the machine word, so the
/// chunk sequence of [`Tagger::tag`] always meets the tokenizers'
/// precondition.
pub proof fn lemma_tag_chunks_fit<'a>(t: &Tagger<'a>, text: Seq<char>)
    requires
        encode_utf8(text).len() <= usize::MAX,
    ensures
        forall|j: int|
            0 <= j < t.spec_tag(text).len() ==> crate::tag::chunk_fits(
                #[trigger] t.spec_tag(text)[j],
            ),
{
    let bytes = encode_utf8(text);
    lemma_filter_matches_wf(bytes, t.spec_find(text), 0, 0);
    lemma_spans_cover(bytes, t.spec_find_word(text), t.dict_view());
    let spans = t.spec_tag(text);
    assert forall|j: int| 0 <= j < spans.len() implies crate::tag::chunk_fits(
        #[trigger] spans[j],
    ) by {
        assert(span_wf(bytes, spans[j]));
        assert(encode_utf8(span_text(spans[j])).len() == span_end(spans[j]) - span_start(
            spans[j],
        ));
    }
}

/// The token named by an IOB tag.
pub open spec fn iob_token(t: IOBTagV) -> TokenV {
    match t {
        IOBTagV::Beginning(c) => TokenV { text: c.text, start: c.start, end: c.end },
        IOBTagV::Inside(c) => TokenV { text: c.text, start: c.start, end: c.end },
        IOBTagV::Outside(c) => TokenV { text: c.text, start: c.start, end: c.end },
    }
}

/// The token named by a BIOES tag.
pub open spec fn bioes_token(t: BIOESTagV) -> TokenV {
    match t {
        BIOESTagV::Beginning(c) => TokenV { text: c.text, start: c.start, end: c.end },
        BIOESTagV::Inside(c) => TokenV { text: c.text, start: c.start, end: c.end },
        BIOESTagV::Outside(c) => TokenV { text: c.text, start: c.start, end: c.end },
        BIOESTagV::End(c) => TokenV { text: c.text, start: c.start, end: c.end },
        BIOESTagV::Single(c) => TokenV { text: c.text, start: c.start, end: c.end },
    }
}

proof fn lemma_iob_projection(spans: Seq<TagV>, i: int)
    requires
        0 <= i <= spans.len(),
    ensures
        spec_iob_tags(spans, i).map_values(|x: IOBTagV| iob_token(x)) == line_tokens(spans, i),
    decreases spans.len() - i,
{
    let proj = |x: IOBTagV| iob_token(x);
    if i >= spans.len() {
        assert(spec_iob_tags(spans, i).map_values(proj) =~= line_tokens(spans, i));
    } else {
        lemma_iob_projection(spans, i + 1);
        let head = spec_iob_span(spans[i]);
        let sts = span_tokens(spans[i]);
        assert forall|k: int| 0 <= k < head.len() implies proj(#[trigger] head[k]) == sts[k] by {
            match spans[i] {
                TagV::Tagged(_) => {},
                TagV::UnTagged(_) => {},
            }
        }
        assert(spec_iob_tags(spans, i).map_values(proj) =~= line_tokens(spans, i));
    }
}

proof fn lemma_bioes_projection(spans: Seq<TagV>, i: int)
    requires
        0 <= i <= spans.len(),
    ensures
        spec_bioes_tags(spans, i).map_values(|x: BIOESTagV| bioes_token(x)) == line_tokens(
            spans,
            i,
        ),
    decreases spans.len() - i,
{
    let proj = |x: BIOESTagV| bioes_token(x);
    if i >= spans.len() {
        assert(spec_bioes_tags(spans, i).map_values(proj) =~= line_tokens(spans, i));
    } else {
        lemma_bioes_projection(spans, i + 1);
        let head = spec_bioes_span(spans[i]);
        let sts = span_tokens(spans[i]);
        assert forall|k: int| 0 <= k < head.len() implies proj(#[trigger] head[k]) == sts[k] by {
            match spans[i] {
                TagV::Tagged(_) => {},
                TagV::UnTagged(_) => {},
            }
        }
        assert(spec_bioes_tags(spans, i).map_values(proj) =~= line_tokens(spans, i));
    }
}

/// Coverage of the IOB output: for any line and any tagger, the token tags
/// produced by tagging the line and tokenizing in the IOB scheme
/// reconstruct the line exactly — each tag carries the bytes at its span,
/// the spans are ordered and disjoint, and every byte between them is a
/// whitespace separator.
pub proof fn lemma_iob_coverage<'a>(t: &Tagger<'a>, text: Seq<char>)
    ensures
        tokens_cover(
            encode_utf8(text),
            spec_iob_tags(t.spec_tag(text), 0).map_values(|x: IOBTagV| iob_token(x)),
        ),
{
    let bytes = encode_utf8(text);
    lemma_filter_matches_wf(bytes, t.spec_find(text), 0, 0);
    lemma_spans_cover(bytes, t.spec_find_word(text), t.dict_view());
    lemma_line_tokens_cover(bytes, t.spec_tag(text));
    lemma_iob_projection(t.spec_tag(text), 0);
}

/// Coverage of the BIOES output: as [`lemma_iob_coverage`], in the BIOES
/// scheme.
pub proof fn lemma_bioes_coverage<'a>(t: &Tagger<'a>, text: Seq<char>)
    ensures
        tokens_cover(
            encode_utf8(text),
            spec_bioes_tags(t.spec_tag(text), 0).map_values(|x: BIOESTagV| bioes_token(x)),
        ),
{
    let bytes = encode_utf8(text);
    lemma_filter_matches_wf(bytes, t.spec_find(text), 0, 0);
    lemma_spans_cover(bytes, t.spec_find_word(text), t.dict_view());
    lemma_line_tokens_cover(bytes, t.spec_tag(text));
    lemma_bioes_projection(t.spec_tag(text), 0);
}

/// No-match invariant, IOB scheme: when the matcher reports no match for
/// the line, every produced token tag is Outside.
pub proof fn lemma_no_match_all_outside_iob<'a>(t: &Tagger<'a>, text: Seq<char>)
    requires
        t.spec_find(text).len() == 0,
    ensures
        forall|k: int|
            0 <= k < spec_iob_tags(t.spec_tag(text), 0).len() ==> (#[trigger] spec_iob_tags(
                t.spec_tag(text),
                0,
            )[k]) is Outside,
{
    let bytes = encode_utf8(text);
    let spans = t.spec_tag(text);
    assert(t.spec_find_word(text) =~= Seq::<FindResult>::empty());
    assert(spans == seq![crate::tagger::spec_untagged(bytes, 0, bytes.len() as int)]);
    let tt = spec_iob_tags(spans, 0);
    assert(spec_iob_tags(spans, 1) =~= Seq::<IOBTagV>::empty());
    assert(tt =~= spec_iob_span(spans[0]));
    assert forall|k: int| 0 <= k < tt.len() implies (#[trigger] tt[k]) is Outside by {
        assert(tt[k] == spec_iob_span(spans[0])[k]);
    }
}

/// No-match invariant, BIOES scheme: when the matcher reports no match for
/// the line, every produced token tag is Outside.
pub proof fn lemma_no_match_all_outside_bioes<'a>(t: &Tagger<'a>, text: Seq<char>)
    requires
        t.spec_find(text).len() == 0,
    ensures
        forall|k: int|
            0 <= k < spec_bioes_tags(t.spec_tag(text), 0).len() ==> (#[trigger] spec_bioes_tags(
                t.spec_tag(text),
                0,
            )[k]) is Outside,
{
    let bytes = encode_utf8(text);
    let spans = t.spec_tag(text);
    assert(t.spec_find_word(text) =~= Seq::<FindResult>::empty());
    assert(spans == seq![crate::tagger::spec_untagged(bytes, 0, bytes.len() as int)]);
    let tt = spec_bioes_tags(spans, 0);
    assert(spec_bioes_tags(spans, 1) =~= Seq::<BIOESTagV>::empty());
    assert(tt =~= spec_bioes_span(spans[0]));
    assert forall|k: int| 0 <= k < tt.len() implies (#[trigger] tt[k]) is Outside by {
        assert(tt[k] == spec_bioes_span(spans[0])[k]);
    }
}

} // verus!
