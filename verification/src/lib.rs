//! A stateful regular-expression matching service behind numeric handles.
//!
//! A caller compiles a pattern once, receives a positive 32-bit handle, and
//! reuses the compiled pattern across many searches; match and capture
//! positions come back as byte offsets.  All state lives in an explicit
//! [`registry::PatternStore`] that every operation takes by reference.
//!
//! Failures are encoded in return values: a pattern that does not compile
//! yields handle 0, an unknown handle or an invalid offset yields a
//! "not found" result, and disposing a handle that is not live does nothing.

use vstd::prelude::*;

pub mod engine;
pub mod flags;
pub mod matching;
pub mod registry;

use crate::engine::pattern_compiles;
use crate::flags::{build_flagged, flagged_pattern};
use crate::matching::{
    adjust_captures, adjusted_captures, flatten_spans, lemma_flatten_spans_cons, next_boundary,
    scan_spans, window_groups, window_groups_model, window_match,
};
use crate::registry::PatternStore;
use vstd::string::StringSliceAdditionalSpecFns;

verus! {

/// The outcome of a single search: whether a match was found, the whole
/// match's byte offsets, and one `(start, end)` pair per capture group
/// (group 0 first), flattened, with `u32::MAX` standing in for both ends of
/// a group that did not participate.
pub struct MatchResult {
    pub found: bool,
    pub start: u32,
    pub end: u32,
    pub captures: Vec<u32>,
}

impl MatchResult {
    /// Whether the search found a match.
    pub fn found(&self) -> (b: bool)
        ensures
            b == self.found,
    {
        self.found
    }

    /// The whole match's starting byte offset.
    pub fn start(&self) -> (s: u32)
        ensures
            s == self.start,
    {
        self.start
    }

    /// The whole match's ending byte offset.
    pub fn end(&self) -> (e: u32)
        ensures
            e == self.end,
    {
        self.end
    }

    /// The flattened capture-group offsets, as a fresh vector.
    pub fn captures(&self) -> (c: Vec<u32>)
        ensures
            c@ == self.captures@,
    {
        let n = self.captures.len();
        let mut c: Vec<u32> = Vec::new();
        let mut i: usize = 0;
        while i < n
            invariant
                i <= n,
                n == self.captures@.len(),
                c@ == self.captures@.take(i as int),
            decreases n - i,
        {
            c.push(self.captures[i]);
            proof {
                assert(c@ =~= self.captures@.take(i + 1));
            }
            i = i + 1;
        }
        proof {
            assert(self.captures@.take(n as int) =~= self.captures@);
        }
        c
    }
}

/// The result that reports "nothing found".
fn miss() -> (r: MatchResult)
    ensures
        !r.found,
        r.start == 0,
        r.end == 0,
        r.captures@ == Seq::<u32>::empty(),
{
    MatchResult { found: false, start: 0, end: 0, captures: Vec::new() }
}

/// Creates a fresh, empty pattern store whose first handle will be 1.
pub fn init() -> (s: PatternStore)
    ensures
        s.wf(),
        s.next_spec() == 1,
        forall|h: u32| !(#[trigger] s.contains_handle(h)),
{
    PatternStore::new()
}

/// Compiles `pattern` under `flags` and registers the compiled pattern under
/// a fresh handle.
///
/// Returns the handle, or 0 when the engine rejects the flagged pattern text
/// (or when the handle space is exhausted); on failure the store is left
/// exactly as it was.  A successful compile hands out exactly the store's
/// next handle, advances the counter once, and changes no other handle's
/// registration.
pub fn compile_pattern(store: &mut PatternStore, pattern: &str, flags: u32) -> (h: u32)
    requires
        old(store).wf(),
    ensures
        final(store).wf(),
        h != 0 <==> (pattern_compiles(flagged_pattern(pattern@, flags)) && old(store).next_spec()
            < u32::MAX),
        h == 0 ==> *final(store) == *old(store),
        h != 0 ==> h == old(store).next_spec() && final(store).next_spec() == old(
            store,
        ).next_spec() + 1 && final(store).lookup_spec(h) == Some(flagged_pattern(pattern@, flags))
            && forall|h2: u32|
            h2 != h ==> #[trigger] final(store).lookup_spec(h2) == old(store).lookup_spec(h2),
{
    let fp = build_flagged(pattern, flags);
    match engine::compile_regex(fp.as_str()) {
        Some(cp) => {
            if store.next_handle() == u32::MAX {
                return 0;
            }
            store.register(cp)
        },
        None => 0,
    }
}

/// Removes the handle's pattern from the store.  Disposing a handle that is
/// not live (never issued, or already disposed) is a no-op; the handle
/// counter never moves, so a disposed handle is never reissued.
pub fn dispose_pattern(store: &mut PatternStore, handle: u32)
    requires
        old(store).wf(),
    ensures
        final(store).wf(),
        final(store).next_spec() == old(store).next_spec(),
        final(store).lookup_spec(handle) is None,
        forall|h2: u32|
            h2 != handle ==> #[trigger] final(store).lookup_spec(h2) == old(store).lookup_spec(h2),
        old(store).lookup_spec(handle) is None ==> *final(store) == *old(store),
{
    store.unregister(handle);
}

/// Error-code query reserved for future use: every failure in this library
/// is reported through return values, so the code is always zero.
pub fn get_last_error() -> (code: u32)
    ensures
        code == 0,
{
    0
}

/// Searches `text` from byte offset `start_pos` with the handle's pattern.
///
/// Reports "nothing found" when the handle is not live, when `start_pos` is
/// at or past the end of the text or splits a multi-byte character, or when
/// the pattern has no match in the window that starts at `start_pos`.
/// Otherwise reports the first match there, every offset translated back to
/// an absolute byte offset by adding `start_pos`.
pub fn find_match(store: &PatternStore, handle: u32, text: &str, start_pos: usize) -> (r:
    MatchResult)
    requires
        text.spec_bytes().len() < u32::MAX,
    ensures
        ({
            let m = match store.lookup_spec(handle) {
                Some(pat) => window_groups_model(pat, text.spec_bytes(), start_pos as int),
                None => None,
            };
            match m {
                None => !r.found && r.start == 0 && r.end == 0 && r.captures@ == Seq::<
                    u32,
                >::empty(),
                Some(g) => {
                    let p = g[0]->0;
                    &&& r.found
                    &&& r.start as int == p.0 + start_pos
                    &&& r.end as int == p.1 + start_pos
                    &&& r.captures@ == adjusted_captures(g, start_pos as int)
                },
            }
        }),
{
    let cp = match store.lookup(handle) {
        None => {
            return miss();
        },
        Some(cp) => cp,
    };
    let groups = match window_groups(cp, text, start_pos) {
        None => {
            return miss();
        },
        Some(groups) => groups,
    };
    let ghost tb = text.spec_bytes();
    let ghost w = tb.subrange(start_pos as int, tb.len() as int);
    proof {
        assert(crate::engine::groups_ok(groups@, w));
    }
    let (s0, e0) = match groups[0] {
        Some(p) => p,
        None => {
            proof {
                assert(false);
            }
            (0, 0)
        },
    };
    let caps = adjust_captures(&groups, start_pos);
    MatchResult {
        found: true,
        start: (s0 + start_pos) as u32,
        end: (e0 + start_pos) as u32,
        captures: caps,
    }
}

/// Law (post-dispose miss): once a handle's registration is gone — as
/// `dispose_pattern` ensures for the disposed handle — the model that
/// `find_match` promises to realize is "nothing found" for every text and
/// every offset, so every later search through that handle reports no match.
pub proof fn lemma_post_dispose_miss(s: PatternStore, handle: u32, text: Seq<u8>, pos: int)
    requires
        s.lookup_spec(handle) is None,
    ensures
        (match s.lookup_spec(handle) {
            Some(pat) => window_groups_model(pat, text, pos),
            None => None,
        }) is None,
{
}

/// Scans the whole text with the handle's pattern and returns every
/// non-overlapping match, left to right, as a flattened
/// `[start, end, start, end, ...]` sequence of byte offsets — whole-match
/// spans only, no capture groups.
///
/// The scan repeats the single search `find_match` performs, each time from
/// the previous match's end; after a zero-width match it advances by one full
/// character so that it always terminates.  An unknown handle yields the
/// empty sequence.
pub fn find_all_matches(store: &PatternStore, handle: u32, text: &str) -> (r: Vec<u32>)
    requires
        text.spec_bytes().len() < u32::MAX,
    ensures
        match store.lookup_spec(handle) {
            None => r@ == Seq::<u32>::empty(),
            Some(pat) => r@ == flatten_spans(scan_spans(pat, text.spec_bytes(), 0)),
        },
{
    let mut out: Vec<u32> = Vec::new();
    let cp = match store.lookup(handle) {
        None => {
            return out;
        },
        Some(cp) => cp,
    };
    let ghost pat = cp.source_spec();
    let ghost tb = text.spec_bytes();
    let n = text.len();
    let mut cursor: usize = 0;
    loop
        invariant_except_break
            n == tb.len(),
            tb == text.spec_bytes(),
            tb.len() < u32::MAX,
            pat == cp.source_spec(),
            cursor <= n,
            flatten_spans(scan_spans(pat, tb, 0)) == out@ + flatten_spans(
                scan_spans(pat, tb, cursor as int),
            ),
        ensures
            out@ == flatten_spans(scan_spans(pat, tb, 0)),
        decreases n - cursor,
    {
        if cursor >= n {
            proof {
                assert(flatten_spans(scan_spans(pat, tb, cursor as int)) == Seq::<u32>::empty());
                assert(out@ + Seq::<u32>::empty() =~= out@);
            }
            break ;
        }
        match window_groups(cp, text, cursor) {
            None => {
                proof {
                    assert(window_match(pat, tb, cursor as int) is None);
                    assert(flatten_spans(scan_spans(pat, tb, cursor as int)) == Seq::<
                        u32,
                    >::empty());
                    assert(out@ + Seq::<u32>::empty() =~= out@);
                }
                break ;
            },
            Some(groups) => {
                let ghost w = tb.subrange(cursor as int, tb.len() as int);
                proof {
                    assert(crate::engine::groups_ok(groups@, w));
                }
                let (s0, e0) = match groups[0] {
                    Some(p) => p,
                    None => {
                        proof {
                            assert(false);
                        }
                        (0, 0)
                    },
                };
                let s_abs = s0 + cursor;
                let e_abs = e0 + cursor;
                let ghost out_before = out@;
                out.push(s_abs as u32);
                out.push(e_abs as u32);
                let adv = if e_abs == s_abs {
                    next_boundary(text, e_abs)
                } else {
                    e_abs
                };
                let newc = if adv > n {
                    n
                } else {
                    adv
                };
                proof {
                    let se = (s_abs as int, e_abs as int);
                    assert(window_match(pat, tb, cursor as int) == Some(se));
                    assert(newc > cursor);
                    assert(scan_spans(pat, tb, cursor as int) == seq![se] + scan_spans(
                        pat,
                        tb,
                        newc as int,
                    ));
                    lemma_flatten_spans_cons(se, scan_spans(pat, tb, newc as int));
                    assert(out@ =~= out_before + seq![s_abs as u32, e_abs as u32]);
                    assert(out_before + seq![s_abs as u32, e_abs as u32] + flatten_spans(
                        scan_spans(pat, tb, newc as int),
                    ) =~= out_before + flatten_spans(scan_spans(pat, tb, cursor as int)));
                }
                cursor = newc;
            },
        }
    }
    out
}

} // verus!
