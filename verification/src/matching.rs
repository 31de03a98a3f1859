//! The match adapter and the iteration model.
//!
//! A single search takes the suffix of the text that begins at a byte offset
//! as its window, asks the engine for the first match there, and translates
//! the reported spans back to absolute byte offsets.  `window_groups_model`
//! is the specification of that step; `scan_spans` iterates it with the
//! zero-width advancement rule and is the specification of scanning a whole
//! text.

use crate::engine::{groups_ok, regex_captures, search_outcome, CompiledPattern};
use vstd::prelude::*;
use vstd::string::StringSliceAdditionalSpecFns;
use vstd::utf8::{is_char_boundary, valid_utf8};

verus! {

/// The capture groups a single search reports for the window of `text` that
/// begins at byte offset `pos`, with spans still relative to the window:
/// `None` when the offset is out of range or splits a character, or when the
/// engine reports no match there.  A malformed engine report (no group 0, or
/// a span outside the window) also counts as no match; the engine never
/// produces one, so the guard only makes the model total.
pub open spec fn window_groups_model(pat: Seq<char>, text: Seq<u8>, pos: int) -> Option<
    Seq<Option<(usize, usize)>>,
> {
    if 0 <= pos < text.len() && is_char_boundary(text, pos) {
        let w = text.subrange(pos, text.len() as int);
        match search_outcome(pat, w) {
            Some(g) => if groups_ok(g, w) {
                Some(g)
            } else {
                None
            },
            None => None,
        }
    } else {
        None
    }
}

/// The whole-match span a single search reports, in absolute byte offsets.
pub open spec fn window_match(pat: Seq<char>, text: Seq<u8>, pos: int) -> Option<(int, int)> {
    match window_groups_model(pat, text, pos) {
        Some(g) => {
            let p = g[0]->0;
            Some((p.0 + pos, p.1 + pos))
        },
        None => None,
    }
}

/// A found window match lies between its offset and the end of the text.
pub proof fn lemma_window_match_bounds(pat: Seq<char>, text: Seq<u8>, pos: int)
    ensures
        window_match(pat, text, pos) matches Some(se) ==> pos <= se.0 <= se.1 <= text.len(),
{
}

/// Performs one search: validates the offset, slices the window off the text
/// and asks the engine.  Returns exactly what `window_groups_model` says.
pub(crate) fn window_groups(p: &CompiledPattern, text: &str, pos: usize) -> (r: Option<
    Vec<Option<(usize, usize)>>,
>)
    requires
        text.spec_bytes().len() < u32::MAX,
    ensures
        r is Some <==> window_groups_model(p.source_spec(), text.spec_bytes(), pos as int) is Some,
        r is Some ==> r->0@ == window_groups_model(p.source_spec(), text.spec_bytes(), pos as int)->0,
{
    if pos >= text.len() {
        return None;
    }
    if !text.is_char_boundary(pos) {
        return None;
    }
    let (_, w) = text.split_at(pos);
    regex_captures(p, w)
}

/// The first position strictly at or after `q` that is past the end of the
/// text or on a character boundary.
pub open spec fn boundary_from(text: Seq<u8>, q: int) -> int
    decreases text.len() - q,
{
    if q >= text.len() || is_char_boundary(text, q) {
        q
    } else {
        boundary_from(text, q + 1)
    }
}

/// Scanning forward for a boundary neither goes backward nor past the end.
pub proof fn lemma_boundary_from_range(text: Seq<u8>, q: int)
    ensures
        boundary_from(text, q) >= q,
        q <= text.len() ==> boundary_from(text, q) <= text.len(),
    decreases text.len() - q,
{
    if !(q >= text.len() || is_char_boundary(text, q)) {
        lemma_boundary_from_range(text, q + 1);
    }
}

/// Finds the next character boundary strictly after `p`: the advancement step
/// for a zero-width match, one full character (or the end of the text), never
/// a single byte into a multi-byte character.
pub fn next_boundary(text: &str, p: usize) -> (q: usize)
    requires
        text.spec_bytes().len() < u32::MAX,
        p <= text.spec_bytes().len(),
    ensures
        q == boundary_from(text.spec_bytes(), p + 1),
        q > p,
{
    let n = text.len();
    let mut q: usize = p + 1;
    while q < n && !text.is_char_boundary(q)
        invariant
            p < q,
            q <= n + 1,
            n == text.spec_bytes().len(),
            boundary_from(text.spec_bytes(), p + 1) == boundary_from(text.spec_bytes(), q as int),
        decreases n - q,
    {
        q = q + 1;
    }
    q
}

/// The spans that scanning the whole text yields: repeat the single search,
/// record each whole-match span, continue at the match end, and after a
/// zero-width match skip ahead to the next character boundary so that the
/// scan always moves forward.  Mirrors what repeated single searches with the
/// zero-width advancement rule produce.
pub open spec fn scan_spans(pat: Seq<char>, text: Seq<u8>, pos: int) -> Seq<(int, int)>
    decreases text.len() - pos,
{
    if pos < 0 || pos >= text.len() {
        Seq::<(int, int)>::empty()
    } else {
        match window_match(pat, text, pos) {
            None => Seq::<(int, int)>::empty(),
            Some(se) => {
                let a0 = if se.1 == se.0 {
                    boundary_from(text, se.1 + 1)
                } else {
                    se.1
                };
                let a = if a0 > text.len() {
                    text.len() as int
                } else {
                    a0
                };
                if a <= pos {
                    seq![se]
                } else {
                    seq![se] + scan_spans(pat, text, a)
                }
            },
        }
    }
}

/// Law (scan order and coverage): every span the scan yields starts at or
/// after the scan's offset and lies within the text, spans come in strictly
/// increasing start order, and no two of them overlap.
pub proof fn lemma_scan_spans_ordered(pat: Seq<char>, text: Seq<u8>, pos: int)
    ensures
        forall|i: int|
            0 <= i < scan_spans(pat, text, pos).len() ==> pos <= (#[trigger] scan_spans(
                pat,
                text,
                pos,
            )[i]).0 <= scan_spans(pat, text, pos)[i].1 <= text.len(),
        forall|i: int, j: int|
            0 <= i < j < scan_spans(pat, text, pos).len() ==> (#[trigger] scan_spans(
                pat,
                text,
                pos,
            )[i]).1 <= (#[trigger] scan_spans(pat, text, pos)[j]).0 && scan_spans(
                pat,
                text,
                pos,
            )[i].0 < scan_spans(pat, text, pos)[j].0,
    decreases text.len() - pos,
{
    let sp = scan_spans(pat, text, pos);
    if pos < 0 || pos >= text.len() {
    } else {
        match window_match(pat, text, pos) {
            None => {},
            Some(se) => {
                lemma_window_match_bounds(pat, text, pos);
                let a0 = if se.1 == se.0 {
                    boundary_from(text, se.1 + 1)
                } else {
                    se.1
                };
                let a = if a0 > text.len() {
                    text.len() as int
                } else {
                    a0
                };
                if se.1 == se.0 {
                    lemma_boundary_from_range(text, se.1 + 1);
                }
                if a > pos {
                    lemma_scan_spans_ordered(pat, text, a);
                    let tail = scan_spans(pat, text, a);
                    assert(sp == seq![se] + tail);
                    assert(se.1 <= a);
                    assert forall|i: int| 0 <= i < sp.len() implies pos <= (#[trigger] sp[i]).0
                        <= sp[i].1 <= text.len() by {
                        if i == 0 {
                            assert(sp[i] == se);
                        } else {
                            assert(sp[i] == tail[i - 1]);
                        }
                    }
                    assert forall|i: int, j: int| 0 <= i < j < sp.len() implies (
                    #[trigger] sp[i]).1 <= (#[trigger] sp[j]).0 && sp[i].0 < sp[j].0 by {
                        assert(sp[j] == tail[j - 1]);
                        assert(a <= tail[j - 1].0);
                        if !(se.0 < a) {
                            // only a zero-width match at the very end of the
                            // text stalls the advance, and then nothing follows
                            assert(a == text.len());
                            assert(tail.len() == 0);
                        }
                        if i == 0 {
                            assert(sp[i] == se);
                        } else {
                            assert(sp[i] == tail[i - 1]);
                        }
                    }
                }
            },
        }
    }
}

/// Law (scan follows the single search): at any offset the scan yields
/// nothing when a single search there reports no match; otherwise it yields
/// that search's whole-match span followed by the scan from the advanced
/// cursor — the match end, or, after a zero-width match, the next character
/// boundary (capped at the end of the text).
pub proof fn lemma_scan_follows_single_search(pat: Seq<char>, text: Seq<u8>, pos: int)
    ensures
        window_match(pat, text, pos) is None ==> scan_spans(pat, text, pos) == Seq::<(
            int,
            int,
        )>::empty(),
        window_match(pat, text, pos) matches Some(se) ==> scan_spans(pat, text, pos) == seq![se]
            + scan_spans(
            pat,
            text,
            ({
                let a0 = if se.1 == se.0 {
                    boundary_from(text, se.1 + 1)
                } else {
                    se.1
                };
                if a0 > text.len() {
                    text.len() as int
                } else {
                    a0
                }
            }),
        ),
{
    match window_match(pat, text, pos) {
        None => {},
        Some(se) => {
            lemma_window_match_bounds(pat, text, pos);
            if se.1 == se.0 {
                lemma_boundary_from_range(text, se.1 + 1);
            }
            let a0 = if se.1 == se.0 {
                boundary_from(text, se.1 + 1)
            } else {
                se.1
            };
            let a = if a0 > text.len() {
                text.len() as int
            } else {
                a0
            };
            if a <= pos {
                // only a zero-width match at the very end of the text stalls
                // the advance, and from there the scan yields nothing more
                assert(a == text.len());
                assert(scan_spans(pat, text, a) == Seq::<(int, int)>::empty());
                assert(seq![se] + Seq::<(int, int)>::empty() =~= seq![se]);
            }
        },
    }
}

/// The scan's spans, flattened to the `[start, end, start, end, ...]` shape
/// the caller receives.
pub open spec fn flatten_spans(sp: Seq<(int, int)>) -> Seq<u32>
    decreases sp.len(),
{
    if sp.len() == 0 {
        Seq::<u32>::empty()
    } else {
        seq![sp[0].0 as u32, sp[0].1 as u32] + flatten_spans(sp.skip(1))
    }
}

/// Flattening one span followed by the rest.
pub proof fn lemma_flatten_spans_cons(x: (int, int), sp: Seq<(int, int)>)
    ensures
        flatten_spans(seq![x] + sp) == seq![x.0 as u32, x.1 as u32] + flatten_spans(sp),
{
    let whole = seq![x] + sp;
    assert(whole.len() == sp.len() + 1);
    assert(whole[0] == x);
    assert(whole.skip(1) =~= sp);
}

/// The capture groups of a single search, translated to absolute offsets and
/// flattened: each participating group becomes its shifted `(start, end)`
/// pair, each non-participating group the sentinel pair.
pub open spec fn adjusted_captures(g: Seq<Option<(usize, usize)>>, base: int) -> Seq<u32>
    decreases g.len(),
{
    if g.len() == 0 {
        Seq::<u32>::empty()
    } else {
        (match g[0] {
            Some(p) => seq![(p.0 + base) as u32, (p.1 + base) as u32],
            None => seq![u32::MAX, u32::MAX],
        }) + adjusted_captures(g.skip(1), base)
    }
}

/// Translates a search report's capture groups to absolute offsets: each
/// participating group's ends are shifted by `base`, each non-participating
/// group becomes the sentinel pair.
pub fn adjust_captures(groups: &Vec<Option<(usize, usize)>>, base: usize) -> (c: Vec<u32>)
    requires
        forall|i: int|
            0 <= i < groups@.len() ==> ((#[trigger] groups@[i]) matches Some(p) ==> p.0 + base
                < u32::MAX && p.1 + base < u32::MAX),
    ensures
        c@ == adjusted_captures(groups@, base as int),
{
    let n_groups = groups.len();
    let mut c: Vec<u32> = Vec::new();
    let mut i: usize = 0;
    proof {
        assert(groups@.skip(0) =~= groups@);
    }
    while i < n_groups
        invariant
            i <= n_groups,
            n_groups == groups@.len(),
            forall|k: int|
                0 <= k < groups@.len() ==> ((#[trigger] groups@[k]) matches Some(p) ==> p.0 + base
                    < u32::MAX && p.1 + base < u32::MAX),
            adjusted_captures(groups@, base as int) == c@ + adjusted_captures(
                groups@.skip(i as int),
                base as int,
            ),
        decreases n_groups - i,
    {
        proof {
            assert(groups@.skip(i as int)[0] == groups@[i as int]);
            assert(groups@.skip(i as int).skip(1) =~= groups@.skip(i as int + 1));
        }
        let ghost c_before = c@;
        match groups[i] {
            Some(p) => {
                c.push((p.0 + base) as u32);
                c.push((p.1 + base) as u32);
            },
            None => {
                c.push(u32::MAX);
                c.push(u32::MAX);
            },
        }
        proof {
            assert(adjusted_captures(groups@, base as int) == c@ + adjusted_captures(
                groups@.skip(i as int + 1),
                base as int,
            )) by {
                assert(c@ + adjusted_captures(groups@.skip(i as int + 1), base as int) =~= c_before
                    + adjusted_captures(groups@.skip(i as int), base as int));
            }
        }
        i = i + 1;
    }
    proof {
        assert(groups@.skip(n_groups as int) =~= Seq::<Option<(usize, usize)>>::empty());
        assert(c@ + Seq::<u32>::empty() =~= c@);
    }
    c
}

/// Law (offset consistency): searching the text at a valid offset `pos`
/// reports, both for the whole match and for every capture group, exactly
/// the spans that searching the suffix `text[pos..]` at offset 0 reports,
/// shifted by `pos`.  (At an offset that is out of range or not a character
/// boundary a search reports no match, so only valid offsets are related.)
pub proof fn lemma_offset_consistency(pat: Seq<char>, text: Seq<u8>, pos: int)
    requires
        vstd::utf8::valid_utf8(text),
        0 <= pos < text.len(),
        is_char_boundary(text, pos),
    ensures
        window_groups_model(pat, text, pos) == window_groups_model(
            pat,
            text.subrange(pos, text.len() as int),
            0,
        ),
        window_match(pat, text, pos) matches Some(se) ==> window_match(
            pat,
            text.subrange(pos, text.len() as int),
            0,
        ) == Some((se.0 - pos, se.1 - pos)),
        window_match(pat, text, pos) is None ==> window_match(
            pat,
            text.subrange(pos, text.len() as int),
            0,
        ) is None,
{
    broadcast use vstd::utf8::valid_utf8_split;
    broadcast use vstd::utf8::is_char_boundary_start_end_of_seq;

    let w = text.subrange(pos, text.len() as int);
    assert(valid_utf8(w));
    assert(is_char_boundary(w, 0));
    assert(w.len() == text.len() - pos);
    assert(w.subrange(0, w.len() as int) =~= w);
}

} // verus!
