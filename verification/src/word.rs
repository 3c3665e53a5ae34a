//! Word-boundary detection over the UTF-8 bytes of a line.
//!
//! A match is kept only when the character immediately before its start and
//! the character immediately after its end (when they exist) are word
//! boundaries: whitespace or ASCII punctuation.  All reasoning is done over
//! the UTF-8 byte encoding of the line; characters adjacent to a byte offset
//! are decoded directly from the bytes.

use vstd::prelude::*;

verus! {

use vstd::utf8::{
    codepoint_width_1,
    codepoint_width_2,
    codepoint_width_3,
    codepoint_width_4,
    encode_utf8,
    decode_utf8,
    is_char_boundary,
    is_continuation_byte,
    is_leading_byte_width_1,
    is_leading_byte_width_2,
    is_leading_byte_width_3,
    is_leading_byte_width_4,
    is_scalar,
    valid_utf8,
};
use vstd::string::StringSliceAdditionalSpecFns;
use crate::types::FindResult;

broadcast use vstd::utf8::group_utf8_lib;

/// Whitespace characters: the ASCII whitespace characters together with the
/// other Unicode characters that carry the white-space property.
pub open spec fn char_is_whitespace(c: char) -> bool {
    let u = c as u32;
    ||| (0x09 <= u && u <= 0x0d)
    ||| u == 0x20
    ||| u == 0x85
    ||| u == 0xa0
    ||| u == 0x1680
    ||| (0x2000 <= u && u <= 0x200a)
    ||| u == 0x2028
    ||| u == 0x2029
    ||| u == 0x202f
    ||| u == 0x205f
    ||| u == 0x3000
}

/// ASCII punctuation characters.
pub open spec fn char_is_ascii_punctuation(c: char) -> bool {
    let u = c as u32;
    ||| (0x21 <= u && u <= 0x2f)
    ||| (0x3a <= u && u <= 0x40)
    ||| (0x5b <= u && u <= 0x60)
    ||| (0x7b <= u && u <= 0x7e)
}

/// A word boundary character is whitespace or ASCII punctuation.
pub open spec fn spec_is_word_boundary(c: char) -> bool {
    char_is_whitespace(c) || char_is_ascii_punctuation(c)
}

/// Whether a character counts as a word boundary.
pub fn is_word_boundary(input: char) -> (r: bool)
    ensures
        r == spec_is_word_boundary(input),
{
    let u = input as u32;
    (0x09 <= u && u <= 0x0d) || u == 0x20 || u == 0x85 || u == 0xa0 || u == 0x1680 || (0x2000 <= u
        && u <= 0x200a) || u == 0x2028 || u == 0x2029 || u == 0x202f || u == 0x205f || u == 0x3000
        || (0x21 <= u && u <= 0x2f) || (0x3a <= u && u <= 0x40) || (0x5b <= u && u <= 0x60) || (0x7b
        <= u && u <= 0x7e)
}

/// Relies on char::from_u32: it returns Some exactly for the Unicode scalar
/// values (all u32 except surrogates and values above 0x10ffff), and the
/// returned char has the given value.
#[verifier::external_body]
fn char_from_u32(v: u32) -> (r: Option<char>)
    ensures
        r is Some <==> is_scalar(v),
        r is Some ==> r->0 as u32 == v,
{
    char::from_u32(v)
}

/// The character with scalar value `u`, or None when `u` is no scalar.
fn scalar_to_char(u: u32) -> (r: Option<char>)
    ensures
        r == (if is_scalar(u) {
            Option::Some(u as char)
        } else {
            Option::<char>::None
        }),
{
    let r = char_from_u32(u);
    proof {
        if r is Some {
            vstd::utf8::char_u32_cast(r->0, u);
        }
    }
    r
}

/// The character whose UTF-8 encoding starts at byte offset `b`, decoded
/// directly from the bytes; None when `b` is out of range or no well-formed
/// scalar starts there.
pub open spec fn spec_decode_forward(bytes: Seq<u8>, b: int) -> Option<char> {
    if b < 0 || b >= bytes.len() {
        None
    } else {
        let b0 = bytes[b];
        if is_leading_byte_width_1(b0) {
            Some(codepoint_width_1(b0) as char)
        } else if is_leading_byte_width_2(b0) && b + 1 < bytes.len() && is_continuation_byte(
            bytes[b + 1],
        ) {
            let u = codepoint_width_2(b0, bytes[b + 1]);
            if is_scalar(u) {
                Some(u as char)
            } else {
                None
            }
        } else if is_leading_byte_width_3(b0) && b + 2 < bytes.len() && is_continuation_byte(
            bytes[b + 1],
        ) && is_continuation_byte(bytes[b + 2]) {
            let u = codepoint_width_3(b0, bytes[b + 1], bytes[b + 2]);
            if is_scalar(u) {
                Some(u as char)
            } else {
                None
            }
        } else if is_leading_byte_width_4(b0) && b + 3 < bytes.len() && is_continuation_byte(
            bytes[b + 1],
        ) && is_continuation_byte(bytes[b + 2]) && is_continuation_byte(bytes[b + 3]) {
            let u = codepoint_width_4(b0, bytes[b + 1], bytes[b + 2], bytes[b + 3]);
            if is_scalar(u) {
                Some(u as char)
            } else {
                None
            }
        } else {
            None
        }
    }
}

/// The character whose UTF-8 encoding ends at byte offset `e` (exclusive),
/// decoded directly from the bytes; None when `e` is out of range or no
/// well-formed scalar ends there.
pub open spec fn spec_decode_backward(bytes: Seq<u8>, e: int) -> Option<char> {
    if e < 1 || e > bytes.len() {
        None
    } else if !is_continuation_byte(bytes[e - 1]) {
        if is_leading_byte_width_1(bytes[e - 1]) {
            Some(codepoint_width_1(bytes[e - 1]) as char)
        } else {
            None
        }
    } else if e >= 2 && !is_continuation_byte(bytes[e - 2]) {
        if is_leading_byte_width_2(bytes[e - 2]) {
            let u = codepoint_width_2(bytes[e - 2], bytes[e - 1]);
            if is_scalar(u) {
                Some(u as char)
            } else {
                None
            }
        } else {
            None
        }
    } else if e >= 3 && !is_continuation_byte(bytes[e - 3]) {
        if is_leading_byte_width_3(bytes[e - 3]) {
            let u = codepoint_width_3(bytes[e - 3], bytes[e - 2], bytes[e - 1]);
            if is_scalar(u) {
                Some(u as char)
            } else {
                None
            }
        } else {
            None
        }
    } else if e >= 4 && !is_continuation_byte(bytes[e - 4]) {
        if is_leading_byte_width_4(bytes[e - 4]) {
            let u = codepoint_width_4(bytes[e - 4], bytes[e - 3], bytes[e - 2], bytes[e - 1]);
            if is_scalar(u) {
                Some(u as char)
            } else {
                None
            }
        } else {
            None
        }
    } else {
        None
    }
}

/// The nearest non-continuation offset at or after `i` (at most the length).
pub open spec fn spec_next_boundary(bytes: Seq<u8>, i: int) -> int
    decreases bytes.len() - i,
    when 0 <= i <= bytes.len()
{
    if i >= bytes.len() {
        bytes.len() as int
    } else if !is_continuation_byte(bytes[i]) {
        i
    } else {
        spec_next_boundary(bytes, i + 1)
    }
}

/// The nearest non-continuation offset at or before `i` (at least 0); the
/// length of the sequence counts as a boundary.
pub open spec fn spec_prev_boundary(bytes: Seq<u8>, i: int) -> int
    decreases i,
    when 0 <= i <= bytes.len()
{
    if i <= 0 {
        0
    } else if i >= bytes.len() {
        i
    } else if !is_continuation_byte(bytes[i]) {
        i
    } else {
        spec_prev_boundary(bytes, i - 1)
    }
}

/// The character starting at the nearest character boundary at or after byte
/// offset `index`, if any.
pub open spec fn spec_next_char(bytes: Seq<u8>, index: int) -> Option<char> {
    if index >= bytes.len() {
        None
    } else if index < 0 {
        None
    } else {
        spec_decode_forward(bytes, spec_next_boundary(bytes, index))
    }
}

/// The character ending at the nearest character boundary at or before byte
/// offset `index`, if any.
pub open spec fn spec_prev_char(bytes: Seq<u8>, index: int) -> Option<char> {
    if index < 1 || index > bytes.len() {
        None
    } else {
        spec_decode_backward(bytes, spec_prev_boundary(bytes, index))
    }
}

/// The character just after byte offset `index` of the input, scanning
/// forward to the nearest character boundary when `index` falls inside a
/// multi-byte character.
pub fn get_next_char(index: usize, input: &str) -> (r: Option<char>)
    ensures
        r == spec_next_char(input.spec_bytes(), index as int),
{
    let s = input.as_bytes();
    if index >= s.len() {
        return None;
    }
    let mut j: usize = index;
    while j < s.len() && 0x80 <= s[j] && s[j] <= 0xbf
        invariant
            index <= j <= s.len(),
            s@ == input.spec_bytes(),
            spec_next_boundary(s@, index as int) == spec_next_boundary(s@, j as int),
        decreases s.len() - j,
    {
        j = j + 1;
    }
    proof {
        assert(spec_next_boundary(s@, j as int) == j as int);
    }
    decode_forward(s, j)
}

/// Decodes the character starting at offset `b` of the bytes, if a
/// well-formed scalar starts there.
fn decode_forward(s: &[u8], b: usize) -> (r: Option<char>)
    requires
        b <= s@.len(),
    ensures
        r == spec_decode_forward(s@, b as int),
{
    if b >= s.len() {
        return None;
    }
    let n = s.len();
    let b0 = s[b];
    if b0 <= 0x7f {
        proof {
            assert((b0 & 0x7f) <= 0x7f) by (bit_vector);
        }
        scalar_to_char((b0 & 0x7f) as u32)
    } else if 0xc0 <= b0 && b0 <= 0xdf && n - b > 1 && 0x80 <= s[b + 1] && s[b + 1] <= 0xbf {
        let u: u32 = (((b0 & 0x1f) as u32) << 6) | ((s[b + 1] & 0x3f) as u32);
        scalar_to_char(u)
    } else if 0xe0 <= b0 && b0 <= 0xef && n - b > 2 && 0x80 <= s[b + 1] && s[b + 1] <= 0xbf && 0x80
        <= s[b + 2] && s[b + 2] <= 0xbf {
        let u: u32 = (((b0 & 0x0f) as u32) << 12) | (((s[b + 1] & 0x3f) as u32) << 6) | ((s[b
            + 2] & 0x3f) as u32);
        scalar_to_char(u)
    } else if 0xf0 <= b0 && b0 <= 0xf7 && n - b > 3 && 0x80 <= s[b + 1] && s[b + 1] <= 0xbf && 0x80
        <= s[b + 2] && s[b + 2] <= 0xbf && 0x80 <= s[b + 3] && s[b + 3] <= 0xbf {
        let u: u32 = (((b0 & 0x07) as u32) << 18) | (((s[b + 1] & 0x3f) as u32) << 12) | (((s[b
            + 2] & 0x3f) as u32) << 6) | ((s[b + 3] & 0x3f) as u32);
        scalar_to_char(u)
    } else {
        None
    }
}

/// The character just before byte offset `index` of the input, scanning
/// backward to the nearest character boundary when `index` falls inside a
/// multi-byte character.
pub fn get_previous_char(index: usize, input: &str) -> (r: Option<char>)
    ensures
        r == spec_prev_char(input.spec_bytes(), index as int),
{
    let s = input.as_bytes();
    if index < 1 || index > s.len() {
        return None;
    }
    let mut j: usize = index;
    while j > 0 && j < s.len() && 0x80 <= s[j] && s[j] <= 0xbf
        invariant
            0 <= j <= index <= s.len(),
            s@ == input.spec_bytes(),
            spec_prev_boundary(s@, index as int) == spec_prev_boundary(s@, j as int),
        decreases j,
    {
        j = j - 1;
    }
    proof {
        assert(spec_prev_boundary(s@, j as int) == j as int);
    }
    decode_backward(s, j)
}

/// Decodes the character ending at offset `e` (exclusive) of the bytes, if a
/// well-formed scalar ends there.
fn decode_backward(s: &[u8], e: usize) -> (r: Option<char>)
    requires
        e <= s@.len(),
    ensures
        r == spec_decode_backward(s@, e as int),
{
    if e < 1 {
        return None;
    }
    let b1 = s[e - 1];
    if !(0x80 <= b1 && b1 <= 0xbf) {
        if b1 <= 0x7f {
            proof {
                assert((b1 & 0x7f) <= 0x7f) by (bit_vector);
            }
            scalar_to_char((b1 & 0x7f) as u32)
        } else {
            None
        }
    } else if e >= 2 && !(0x80 <= s[e - 2] && s[e - 2] <= 0xbf) {
        let b0 = s[e - 2];
        if 0xc0 <= b0 && b0 <= 0xdf {
            let u: u32 = (((b0 & 0x1f) as u32) << 6) | ((b1 & 0x3f) as u32);
            scalar_to_char(u)
        } else {
            None
        }
    } else if e >= 3 && !(0x80 <= s[e - 3] && s[e - 3] <= 0xbf) {
        let b0 = s[e - 3];
        if 0xe0 <= b0 && b0 <= 0xef {
            let u: u32 = (((b0 & 0x0f) as u32) << 12) | (((s[e - 2] & 0x3f) as u32) << 6) | ((b1
                & 0x3f) as u32);
            scalar_to_char(u)
        } else {
            None
        }
    } else if e >= 4 && !(0x80 <= s[e - 4] && s[e - 4] <= 0xbf) {
        let b0 = s[e - 4];
        if 0xf0 <= b0 && b0 <= 0xf7 {
            let u: u32 = (((b0 & 0x07) as u32) << 18) | (((s[e - 3] & 0x3f) as u32) << 12) | (((s[e
                - 2] & 0x3f) as u32) << 6) | ((b1 & 0x3f) as u32);
            scalar_to_char(u)
        } else {
            None
        }
    } else {
        None
    }
}

/// A raw match `[s, e)` survives the word filter when it is a non-empty
/// range of whole characters and the characters adjacent to it (when they
/// exist) are word boundaries.  An offset inside a multi-byte character is
/// never at a word boundary, so no byte range is ever read across a
/// character boundary.
pub open spec fn spec_match_kept(bytes: Seq<u8>, s: int, e: int) -> bool {
    &&& 0 <= s < e <= bytes.len()
    &&& is_char_boundary(bytes, s)
    &&& is_char_boundary(bytes, e)
    &&& match spec_prev_char(bytes, s) {
        Option::None => true,
        Option::Some(c) => spec_is_word_boundary(c),
    }
    &&& match spec_next_char(bytes, e) {
        Option::None => true,
        Option::Some(c) => spec_is_word_boundary(c),
    }
}

/// The matches of `ms` from position `i` on that survive the word filter,
/// dropping any match that starts before the running cursor `lo` (the end of
/// the previously kept match), so that the result is always ordered and
/// non-overlapping.
pub open spec fn spec_filter_matches(bytes: Seq<u8>, ms: Seq<FindResult>, i: int, lo: int) -> Seq<
    FindResult,
>
    decreases ms.len() - i,
    when 0 <= i <= ms.len()
{
    if i >= ms.len() {
        Seq::empty()
    } else {
        let m = ms[i];
        if lo <= m.0 as int && spec_match_kept(bytes, m.0 as int, m.1 as int) {
            seq![m] + spec_filter_matches(bytes, ms, i + 1, m.1 as int)
        } else {
            spec_filter_matches(bytes, ms, i + 1, lo)
        }
    }
}

/// A filtered match list is well formed from cursor `lo` on: every match is
/// a kept word match starting at or after `lo`, and the matches are ordered
/// and non-overlapping.
pub open spec fn matches_wf(bytes: Seq<u8>, rs: Seq<FindResult>, lo: int) -> bool {
    &&& forall|k: int|
        0 <= k < rs.len() ==> spec_match_kept(
            bytes,
            (#[trigger] rs[k]).0 as int,
            rs[k].1 as int,
        )
    &&& forall|k: int| 0 <= k < rs.len() ==> lo <= (#[trigger] rs[k]).0 as int
    &&& forall|k: int|
        0 <= k < rs.len() - 1 ==> (#[trigger] rs[k]).1 as int <= rs[k + 1].0 as int
}

/// The output of the word filter is well formed.
pub proof fn lemma_filter_matches_wf(bytes: Seq<u8>, ms: Seq<FindResult>, i: int, lo: int)
    requires
        0 <= i <= ms.len(),
        0 <= lo,
    ensures
        matches_wf(bytes, spec_filter_matches(bytes, ms, i, lo), lo),
    decreases ms.len() - i,
{
    if i >= ms.len() {
    } else {
        let m = ms[i];
        let res = spec_filter_matches(bytes, ms, i, lo);
        if lo <= m.0 as int && spec_match_kept(bytes, m.0 as int, m.1 as int) {
            lemma_filter_matches_wf(bytes, ms, i + 1, m.1 as int);
            let rest = spec_filter_matches(bytes, ms, i + 1, m.1 as int);
            assert(res == seq![m] + rest);
            assert forall|k: int| 0 <= k < res.len() implies spec_match_kept(
                bytes,
                (#[trigger] res[k]).0 as int,
                res[k].1 as int,
            ) && lo <= res[k].0 as int by {
                if k == 0 {
                    assert(res[k] == m);
                } else {
                    assert(res[k] == rest[k - 1]);
                }
            }
            assert forall|k: int| 0 <= k < res.len() - 1 implies (#[trigger] res[k]).1 as int
                <= res[k + 1].0 as int by {
                if k == 0 {
                    assert(res[0] == m);
                    if rest.len() > 0 {
                        assert(res[1] == rest[0]);
                    }
                } else {
                    assert(res[k] == rest[k - 1]);
                    assert(res[k + 1] == rest[k]);
                }
            }
        } else {
            lemma_filter_matches_wf(bytes, ms, i + 1, lo);
            assert(res == spec_filter_matches(bytes, ms, i + 1, lo));
        }
    }
}

/// The word filter only drops matches: every dictionary-index bound that
/// holds of the raw matches holds of the kept ones.
pub proof fn lemma_filter_matches_pattern_bound(
    bytes: Seq<u8>,
    ms: Seq<FindResult>,
    i: int,
    lo: int,
    n: int,
)
    requires
        0 <= i <= ms.len(),
        forall|k: int| 0 <= k < ms.len() ==> (#[trigger] ms[k]).2 < n,
    ensures
        forall|k: int|
            0 <= k < spec_filter_matches(bytes, ms, i, lo).len() ==> (
            #[trigger] spec_filter_matches(bytes, ms, i, lo)[k]).2 < n,
    decreases ms.len() - i,
{
    if i >= ms.len() {
    } else {
        let m = ms[i];
        let res = spec_filter_matches(bytes, ms, i, lo);
        if lo <= m.0 as int && spec_match_kept(bytes, m.0 as int, m.1 as int) {
            lemma_filter_matches_pattern_bound(bytes, ms, i + 1, m.1 as int, n);
            let rest = spec_filter_matches(bytes, ms, i + 1, m.1 as int);
            assert(res == seq![m] + rest);
            assert forall|k: int| 0 <= k < res.len() implies (#[trigger] res[k]).2 < n by {
                if k == 0 {
                    assert(res[k] == m);
                } else {
                    assert(res[k] == rest[k - 1]);
                }
            }
        } else {
            lemma_filter_matches_pattern_bound(bytes, ms, i + 1, lo, n);
            assert(res == spec_filter_matches(bytes, ms, i + 1, lo));
        }
    }
}

/// Keeps the matches that are delimited by word boundaries, per
/// [`spec_match_kept`], preserving their order.
pub fn filter_word_matches(ms: &Vec<FindResult>, input: &str) -> (r: Vec<FindResult>)
    ensures
        r@ == spec_filter_matches(input.spec_bytes(), ms@, 0, 0),
{
    let ghost bytes = input.spec_bytes();
    let mut out: Vec<FindResult> = Vec::new();
    let mut lo: usize = 0;
    let mut i: usize = 0;
    while i < ms.len()
        invariant
            0 <= i <= ms@.len(),
            spec_filter_matches(bytes, ms@, 0, 0) == out@ + spec_filter_matches(
                bytes,
                ms@,
                i as int,
                lo as int,
            ),
            bytes == input.spec_bytes(),
        decreases ms@.len() - i,
    {
        let ghost lo0 = lo as int;
        let ghost out0 = out@;
        let (s, e, p) = ms[i];
        proof {
            assert((s, e, p) == ms@[i as int]);
        }
        let n = input.as_bytes().len();
        let keep = lo <= s && s < e && e <= n && input.is_char_boundary(s)
            && input.is_char_boundary(e) && match get_previous_char(s, input) {
            Option::None => true,
            Option::Some(c) => is_word_boundary(c),
        } && match get_next_char(e, input) {
            Option::None => true,
            Option::Some(c) => is_word_boundary(c),
        };
        proof {
            assert(keep == (lo0 <= s as int && spec_match_kept(bytes, s as int, e as int)));
        }
        if keep {
            out.push((s, e, p));
            lo = e;
            proof {
                assert(spec_filter_matches(bytes, ms@, i as int, lo0) == seq![ms@[i as int]]
                    + spec_filter_matches(bytes, ms@, i + 1, e as int));
                assert(out0 + spec_filter_matches(bytes, ms@, i as int, lo0) =~= out@
                    + spec_filter_matches(bytes, ms@, i + 1, lo as int));
            }
        } else {
            proof {
                assert(spec_filter_matches(bytes, ms@, i as int, lo0) == spec_filter_matches(
                    bytes,
                    ms@,
                    i + 1,
                    lo0,
                ));
            }
        }
        i = i + 1;
    }
    out
}

/// Extracts the substring of `input` covering bytes `from..to`, both offsets
/// being character boundaries.
pub fn substring(input: &str, from: usize, to: usize) -> (r: String)
    requires
        from <= to <= input.spec_bytes().len(),
        is_char_boundary(input.spec_bytes(), from as int),
        is_char_boundary(input.spec_bytes(), to as int),
    ensures
        encode_utf8(r@) == input.spec_bytes().subrange(from as int, to as int),
        r@ == decode_utf8(input.spec_bytes().subrange(from as int, to as int)),
{
    let ghost bytes = input.spec_bytes();
    let (_, t1) = input.split_at(from);
    proof {
        lemma_boundary_in_suffix(bytes, from as int, to as int);
    }
    let (t2, _) = t1.split_at(to - from);
    proof {
        assert(t2.spec_bytes() =~= bytes.subrange(from as int, to as int));
        assert(valid_utf8(bytes.subrange(from as int, to as int)));
    }
    let r = t2.to_owned();
    proof {
        assert(encode_utf8(r@) == t2.spec_bytes());
        assert(decode_utf8(encode_utf8(r@)) == r@);
    }
    r
}

/// A byte range delimited by two character boundaries is itself valid
/// UTF-8, and re-encoding its decoding gives the range back.
pub proof fn lemma_subrange_valid(bytes: Seq<u8>, s: int, e: int)
    requires
        valid_utf8(bytes),
        0 <= s <= e <= bytes.len(),
        is_char_boundary(bytes, s),
        is_char_boundary(bytes, e),
    ensures
        valid_utf8(bytes.subrange(s, e)),
        encode_utf8(decode_utf8(bytes.subrange(s, e))) == bytes.subrange(s, e),
{
    let suffix = bytes.subrange(s, bytes.len() as int);
    assert(valid_utf8(suffix));
    lemma_boundary_in_suffix(bytes, s, e);
    assert(valid_utf8(suffix.subrange(0, e - s)));
    assert(suffix.subrange(0, e - s) =~= bytes.subrange(s, e));
    assert(encode_utf8(decode_utf8(bytes.subrange(s, e))) == bytes.subrange(s, e));
}

/// A well-formed first scalar starts with a leading byte, never with a
/// continuation byte.
pub proof fn lemma_valid_first_not_continuation(bytes: Seq<u8>)
    requires
        valid_utf8(bytes),
        bytes.len() > 0,
    ensures
        !is_continuation_byte(bytes[0]),
{
    assert(vstd::utf8::valid_first_scalar(bytes));
}

/// In a valid sequence, the position just after an ASCII byte is a character
/// boundary.
pub proof fn lemma_after_ascii_is_boundary(bytes: Seq<u8>, i: int)
    requires
        valid_utf8(bytes),
        0 <= i < bytes.len(),
        bytes[i] < 0x80,
    ensures
        is_char_boundary(bytes, i + 1),
{
    assert(!is_continuation_byte(bytes[i]));
    assert(is_char_boundary(bytes, i));
    let suffix = bytes.subrange(i, bytes.len() as int);
    assert(valid_utf8(suffix));
    assert(suffix[0] == bytes[i]);
    assert(is_leading_byte_width_1(suffix[0]));
    assert(vstd::utf8::length_of_first_scalar(suffix) == 1);
    if i + 1 == bytes.len() {
        assert(is_char_boundary(bytes, bytes.len() as int));
    } else {
        let rest = vstd::utf8::pop_first_scalar(suffix);
        assert(valid_utf8(rest));
        assert(rest.len() > 0);
        lemma_valid_first_not_continuation(rest);
        assert(rest[0] == bytes[i + 1]);
        assert(!is_continuation_byte(bytes[i + 1]));
        assert(is_char_boundary(bytes, i + 1));
    }
}

/// A character boundary of a valid sequence is a character boundary of any
/// suffix that starts at a boundary before it.
pub proof fn lemma_boundary_in_suffix(bytes: Seq<u8>, a: int, b: int)
    requires
        valid_utf8(bytes),
        0 <= a <= b <= bytes.len(),
        is_char_boundary(bytes, a),
        is_char_boundary(bytes, b),
    ensures
        is_char_boundary(bytes.subrange(a, bytes.len() as int), b - a),
{
    let suffix = bytes.subrange(a, bytes.len() as int);
    assert(valid_utf8(suffix));
    if b == bytes.len() {
        assert(suffix.len() == bytes.len() - a);
        assert(is_char_boundary(suffix, suffix.len() as int));
    } else {
        assert(!is_continuation_byte(bytes[b]));
        assert(suffix[b - a] == bytes[b]);
        assert(is_char_boundary(suffix, b - a));
    }
}

} // verus!
