//! Whitespace tokenization of chunk text.
//!
//! A chunk's text is split on runs of ASCII whitespace; no token is empty,
//! and every byte of the chunk that belongs to no token is such whitespace.
//! Token positions are byte offsets; absolute offsets are recovered by
//! adding the chunk's start offset.

use vstd::prelude::*;

verus! {

use vstd::string::StringSliceAdditionalSpecFns;
use vstd::utf8::{decode_utf8, encode_utf8, is_char_boundary, is_continuation_byte, valid_utf8};
use crate::tag::TagV;
use crate::word::lemma_after_ascii_is_boundary;

broadcast use vstd::utf8::group_utf8_lib, vstd::slice::group_slice_axioms;

/// A separator byte: ASCII whitespace (space, tab, line feed, form feed,
/// carriage return), on which chunk text splits into tokens.
pub open spec fn is_sep_byte(b: u8) -> bool {
    b == 0x20 || b == 0x09 || b == 0x0a || b == 0x0c || b == 0x0d
}

/// Whether a byte is a token separator.
pub fn is_sep(b: u8) -> (r: bool)
    ensures
        r == is_sep_byte(b),
{
    b == 0x20 || b == 0x09 || b == 0x0a || b == 0x0c || b == 0x0d
}

/// The end of the run of non-separator bytes starting at `i`: the first
/// offset at or after `i` holding a separator, or the length.
pub open spec fn spec_token_end(bytes: Seq<u8>, i: int) -> int
    decreases bytes.len() - i,
    when 0 <= i <= bytes.len()
{
    if i >= bytes.len() {
        i
    } else if is_sep_byte(bytes[i]) {
        i
    } else {
        spec_token_end(bytes, i + 1)
    }
}

/// The run ending at [`spec_token_end`] stays within the sequence, holds no
/// separator, and stops at a separator or the end.
pub proof fn lemma_token_end_bounds(bytes: Seq<u8>, i: int)
    requires
        0 <= i <= bytes.len(),
    ensures
        i <= spec_token_end(bytes, i) <= bytes.len(),
        forall|k: int| i <= k < spec_token_end(bytes, i) ==> !is_sep_byte(#[trigger] bytes[k]),
        spec_token_end(bytes, i) < bytes.len() ==> is_sep_byte(bytes[spec_token_end(bytes, i)]),
    decreases bytes.len() - i,
{
    if i >= bytes.len() {
    } else if is_sep_byte(bytes[i]) {
    } else {
        lemma_token_end_bounds(bytes, i + 1);
    }
}

/// The token byte ranges of `bytes[i..]`: the maximal runs of
/// non-separator bytes, in order.
pub open spec fn spec_tokens(bytes: Seq<u8>, i: int) -> Seq<(int, int)>
    decreases bytes.len() - i,
    when 0 <= i <= bytes.len()
    via spec_tokens_dec
{
    if i >= bytes.len() {
        Seq::empty()
    } else if is_sep_byte(bytes[i]) {
        spec_tokens(bytes, i + 1)
    } else {
        seq![(i, spec_token_end(bytes, i))] + spec_tokens(bytes, spec_token_end(bytes, i))
    }
}

#[via_fn]
proof fn spec_tokens_dec(bytes: Seq<u8>, i: int) {
    if 0 <= i < bytes.len() && !is_sep_byte(bytes[i]) {
        lemma_token_end_bounds(bytes, i + 1);
    }
}

/// Whether `pos` lies in none of the token ranges.
pub open spec fn not_in_tokens(ts: Seq<(int, int)>, pos: int) -> bool {
    forall|k: int| 0 <= k < ts.len() ==> !((#[trigger] ts[k]).0 <= pos < ts[k].1)
}

/// The tokens of `bytes[i..]` are non-empty, ordered, disjoint ranges of
/// `[i, len)` whose edges are character boundaries (given that `i` is one),
/// and every position of `[i, len)` outside all tokens holds a separator.
pub proof fn lemma_tokens_props(bytes: Seq<u8>, i: int)
    requires
        valid_utf8(bytes),
        0 <= i <= bytes.len(),
        is_char_boundary(bytes, i),
    ensures
        ({
            let ts = spec_tokens(bytes, i);
            &&& forall|k: int|
                0 <= k < ts.len() ==> i <= (#[trigger] ts[k]).0 < ts[k].1 <= bytes.len()
            &&& forall|k: int|
                0 <= k < ts.len() ==> is_char_boundary(bytes, (#[trigger] ts[k]).0)
                    && is_char_boundary(bytes, ts[k].1)
            &&& forall|k: int|
                0 <= k < ts.len() ==> forall|p: int|
                    (#[trigger] ts[k]).0 <= p < ts[k].1 ==> !is_sep_byte(#[trigger] bytes[p])
            &&& forall|k: int| 0 <= k < ts.len() - 1 ==> (#[trigger] ts[k]).1 <= ts[k + 1].0
            &&& forall|pos: int|
                i <= pos < bytes.len() && not_in_tokens(ts, pos) ==> is_sep_byte(
                    #[trigger] bytes[pos],
                )
        }),
    decreases bytes.len() - i,
{
    let ts = spec_tokens(bytes, i);
    if i >= bytes.len() {
    } else if is_sep_byte(bytes[i]) {
        lemma_after_ascii_is_boundary(bytes, i);
        lemma_tokens_props(bytes, i + 1);
        assert(ts == spec_tokens(bytes, i + 1));
    } else {
        lemma_token_end_bounds(bytes, i);
        let e = spec_token_end(bytes, i);
        if e < bytes.len() {
            assert(is_sep_byte(bytes[e]));
            assert(!is_continuation_byte(bytes[e]));
            assert(is_char_boundary(bytes, e));
        } else {
            assert(is_char_boundary(bytes, bytes.len() as int));
        }
        lemma_tokens_props(bytes, e);
        let rest = spec_tokens(bytes, e);
        assert(ts == seq![(i, e)] + rest);
        assert forall|k: int| 0 <= k < ts.len() implies i <= (#[trigger] ts[k]).0 < ts[k].1
            <= bytes.len() && is_char_boundary(bytes, ts[k].0) && is_char_boundary(
            bytes,
            ts[k].1,
        ) && forall|p: int| (ts[k]).0 <= p < ts[k].1 ==> !is_sep_byte(#[trigger] bytes[p]) by {
            if k == 0 {
                assert(ts[k] == (i, e));
                assert(e > i);
            } else {
                assert(ts[k] == rest[k - 1]);
            }
        }
        assert forall|k: int| 0 <= k < ts.len() - 1 implies (#[trigger] ts[k]).1 <= ts[k + 1].0 by {
            if k == 0 {
                assert(ts[0] == (i, e));
                if rest.len() > 0 {
                    assert(ts[1] == rest[0]);
                }
            } else {
                assert(ts[k] == rest[k - 1]);
                assert(ts[k + 1] == rest[k]);
            }
        }
        assert forall|pos: int| i <= pos < bytes.len() && not_in_tokens(ts, pos) implies is_sep_byte(
            #[trigger] bytes[pos],
        ) by {
            assert(ts[0] == (i, e));
            if pos < e {
                assert(!(ts[0].0 <= pos < ts[0].1));
                assert(false);
            } else {
                assert(not_in_tokens(rest, pos)) by {
                    assert forall|k: int| 0 <= k < rest.len() implies !((#[trigger] rest[k]).0
                        <= pos < rest[k].1) by {
                        assert(rest[k] == ts[k + 1]);
                    }
                }
            }
        }
    }
}

/// Splits the text into its whitespace-delimited tokens, returning the byte
/// range of each token, in order.
pub fn split_tokens(text: &str) -> (r: Vec<(usize, usize)>)
    ensures
        r@.map_values(|t: (usize, usize)| (t.0 as int, t.1 as int)) == spec_tokens(
            text.spec_bytes(),
            0,
        ),
{
    let s = text.as_bytes();
    let ghost bytes = text.spec_bytes();
    let mut r: Vec<(usize, usize)> = Vec::new();
    let mut i: usize = 0;
    while i < s.len()
        invariant
            0 <= i <= s@.len(),
            s@ == bytes,
            spec_tokens(bytes, 0) == r@.map_values(|t: (usize, usize)| (t.0 as int, t.1 as int))
                + spec_tokens(bytes, i as int),
        decreases s@.len() - i,
    {
        if is_sep(s[i]) {
            proof {
                assert(spec_tokens(bytes, i as int) == spec_tokens(bytes, i as int + 1));
            }
            i = i + 1;
        } else {
            let ghost r0 = r@;
            let a = i;
            let mut j: usize = i;
            while j < s.len() && !is_sep(s[j])
                invariant
                    a <= j <= s@.len(),
                    s@ == bytes,
                    spec_token_end(bytes, a as int) == spec_token_end(bytes, j as int),
                decreases s@.len() - j,
            {
                j = j + 1;
            }
            proof {
                assert(spec_token_end(bytes, j as int) == j as int);
                lemma_token_end_bounds(bytes, a as int);
                assert(!is_sep_byte(bytes[a as int]));
                assert(j > a);
            }
            r.push((a, j));
            proof {
                assert(spec_tokens(bytes, a as int) == seq![(a as int, j as int)] + spec_tokens(
                    bytes,
                    j as int,
                ));
                assert(r@.map_values(|t: (usize, usize)| (t.0 as int, t.1 as int)) =~= r0.map_values(
                    |t: (usize, usize)| (t.0 as int, t.1 as int),
                ).push((a as int, j as int)));
                assert(spec_tokens(bytes, 0) =~= r@.map_values(
                    |t: (usize, usize)| (t.0 as int, t.1 as int),
                ) + spec_tokens(bytes, j as int));
            }
            i = j;
        }
    }
    proof {
        assert(spec_tokens(bytes, i as int) =~= Seq::<(int, int)>::empty());
        assert(spec_tokens(bytes, 0) =~= r@.map_values(
            |t: (usize, usize)| (t.0 as int, t.1 as int),
        ));
    }
    r
}

/// Ghost form of one token: its text and its absolute byte span in the
/// original line.
pub ghost struct TokenV {
    pub text: Seq<char>,
    pub start: int,
    pub end: int,
}

/// The tokens of a chunk text, with byte offsets shifted by the chunk's
/// start offset `base`.
pub open spec fn abs_tokens(text: Seq<char>, base: int) -> Seq<TokenV> {
    let b = encode_utf8(text);
    let ts = spec_tokens(b, 0);
    Seq::new(
        ts.len(),
        |k: int|
            TokenV {
                text: decode_utf8(b.subrange(ts[k].0, ts[k].1)),
                start: base + ts[k].0,
                end: base + ts[k].1,
            },
    )
}

/// The tokens of one chunk, at absolute line offsets.
pub open spec fn span_tokens(span: TagV) -> Seq<TokenV> {
    match span {
        TagV::Tagged(t) => abs_tokens(t.text, t.start),
        TagV::UnTagged(u) => abs_tokens(u.text, u.start),
    }
}

/// The tokens of the chunks `spans[i..]`, in order.
pub open spec fn line_tokens(spans: Seq<TagV>, i: int) -> Seq<TokenV>
    decreases spans.len() - i,
    when 0 <= i <= spans.len()
{
    if i >= spans.len() {
        Seq::empty()
    } else {
        span_tokens(spans[i]) + line_tokens(spans, i + 1)
    }
}

} // verus!
