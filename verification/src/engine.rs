//! The boundary to the `fancy_regex` matching engine.
//!
//! Everything the rest of the crate knows about the engine flows through the
//! two uninterpreted names `pattern_compiles` and `search_outcome` and the two
//! wrappers below.  `fancy_regex` compiles a pattern text into a `Regex` and
//! searches a haystack deterministically, so both names are functions of their
//! text arguments alone.

use vstd::prelude::*;
use vstd::string::StringSliceAdditionalSpecFns;
use vstd::utf8::is_char_boundary;

verus! {

#[verifier::external_type_specification]
#[verifier::external_body]
pub struct ExRegex(fancy_regex::Regex);

/// Whether `fancy_regex::Regex::new` accepts the pattern text `pat`.
/// Compilation depends on the pattern text alone.
pub uninterp spec fn pattern_compiles(pat: Seq<char>) -> bool;

/// The outcome of searching the UTF-8 text with byte content `window` for the
/// first match of the pattern compiled from `pat`, as
/// `fancy_regex::Regex::captures` reports it: `None` when the engine reports
/// no match (or fails at run time, which the engine reports as an error and
/// this library folds into "no match"), otherwise one entry per capture group
/// of the pattern, group 0 first, each participating group as
/// `Some((start, end))` byte offsets into `window` and each non-participating
/// group as `None`.  The engine is deterministic: the outcome is a function of
/// the pattern text and the window bytes alone.
pub uninterp spec fn search_outcome(pat: Seq<char>, window: Seq<u8>) -> Option<
    Seq<Option<(usize, usize)>>,
>;

/// A pattern compiled by the engine, together with the pattern text it was
/// compiled from.  The two fields travel together: values of this type are
/// built only by `compile_regex`, which compiles exactly `source`.
pub struct CompiledPattern {
    regex: fancy_regex::Regex,
    source: String,
}

impl CompiledPattern {
    /// The pattern text this compiled pattern was built from.
    pub closed spec fn source_spec(self) -> Seq<char> {
        self.source@
    }
}

/// A single capture-group report is well formed for a window of text when its
/// span lies inside the window, in order, with both ends on character
/// boundaries.
pub open spec fn group_ok(g: Option<(usize, usize)>, window: Seq<u8>) -> bool {
    match g {
        None => true,
        Some(p) => p.0 <= p.1 <= window.len() && is_char_boundary(window, p.0 as int)
            && is_char_boundary(window, p.1 as int),
    }
}

/// A successful search report is well formed when group 0 (the whole match) is
/// present and participating and every group's span is well formed.
pub open spec fn groups_ok(gs: Seq<Option<(usize, usize)>>, window: Seq<u8>) -> bool {
    &&& gs.len() >= 1
    &&& gs[0] is Some
    &&& forall|i: int| 0 <= i < gs.len() ==> group_ok(#[trigger] gs[i], window)
}

/// Relies on `fancy_regex::Regex::new`: it parses and compiles the pattern
/// text, returning `Ok` exactly when the text is a pattern the engine
/// accepts; acceptance depends on the text alone.
#[verifier::external_body]
pub(crate) fn compile_regex(pattern: &str) -> (r: Option<CompiledPattern>)
    ensures
        r is Some <==> pattern_compiles(pattern@),
        r is Some ==> r->0.source_spec() == pattern@,
{
    match fancy_regex::Regex::new(pattern) {
        Ok(regex) => Some(CompiledPattern { regex, source: pattern.to_owned() }),
        Err(_) => None,
    }
}

/// Relies on `fancy_regex::Regex::captures`: it reports the capture groups of
/// the first match in `window`, `Ok(None)` when there is none, and `Err` only
/// for run-time engine limits; the report has one entry per capture group of
/// the pattern, group 0 (always present for a match) being the whole match,
/// and every reported span is a byte range of `window` (its `Match` values
/// slice `window` with those offsets, so they lie in bounds on character
/// boundaries).  Relies on `Captures::len`, `Captures::get`, `Match::start`
/// and `Match::end` only to read the report out, group by group.
#[verifier::external_body]
pub(crate) fn regex_captures(p: &CompiledPattern, window: &str) -> (r: Option<
    Vec<Option<(usize, usize)>>,
>)
    ensures
        r is Some <==> search_outcome(p.source_spec(), window.spec_bytes()) is Some,
        r is Some ==> r->0@ == search_outcome(p.source_spec(), window.spec_bytes())->0,
        r is Some ==> groups_ok(r->0@, window.spec_bytes()),
{
    match p.regex.captures(window) {
        Ok(Some(caps)) => {
            let mut groups = Vec::with_capacity(caps.len());
            for i in 0..caps.len() {
                groups.push(caps.get(i).map(|m| (m.start(), m.end())));
            }
            Some(groups)
        },
        _ => None,
    }
}

} // verus!
