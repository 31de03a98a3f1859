//! Translation of the caller's flag bitmask into the engine's inline flag
//! syntax.
//!
//! Bit 0 requests case-insensitive matching, bit 1 free-spacing mode, bit 2
//! multiline anchors and bit 3 dot-matches-newline.  The four bits become the
//! inline group `(?imsx)` prefixed to the pattern; unrecognized bits are
//! ignored.

use vstd::prelude::*;
use vstd::string::StringExecFns;

verus! {

/// The flag bits this library recognizes, as a mask.
pub const FLAG_MASK: u32 = 15;

/// Bit 0: case-insensitive matching.
pub const FLAG_IGNORE_CASE: u32 = 1;

/// Bit 1: extended (free-spacing) mode.
pub const FLAG_EXTENDED: u32 = 2;

/// Bit 2: `^` and `$` match at line boundaries.
pub const FLAG_MULTILINE: u32 = 4;

/// Bit 3: `.` also matches a newline.
pub const FLAG_DOT_ALL: u32 = 8;

/// The inline flag group a bitmask translates to: empty when no recognized
/// bit is set, otherwise `(?` + the engine's letters, in the fixed order
/// `i`, `m`, `s`, `x` + `)`.
pub open spec fn flag_prefix(flags: u32) -> Seq<char> {
    if flags & FLAG_MASK == 0 {
        Seq::<char>::empty()
    } else {
        "(?"@ + (if flags & FLAG_IGNORE_CASE != 0 {
            "i"@
        } else {
            Seq::<char>::empty()
        }) + (if flags & FLAG_MULTILINE != 0 {
            "m"@
        } else {
            Seq::<char>::empty()
        }) + (if flags & FLAG_DOT_ALL != 0 {
            "s"@
        } else {
            Seq::<char>::empty()
        }) + (if flags & FLAG_EXTENDED != 0 {
            "x"@
        } else {
            Seq::<char>::empty()
        }) + ")"@
    }
}

/// The pattern text handed to the engine: the flag prefix, then the caller's
/// pattern.
pub open spec fn flagged_pattern(pat: Seq<char>, flags: u32) -> Seq<char> {
    flag_prefix(flags) + pat
}

/// Builds the engine pattern text for `pattern` under `flags`.
pub fn build_flagged(pattern: &str, flags: u32) -> (r: String)
    ensures
        r@ == flagged_pattern(pattern@, flags),
{
    let mut s = String::new();
    if flags & FLAG_MASK != 0 {
        s.append("(?");
        if flags & FLAG_IGNORE_CASE != 0 {
            s.append("i");
        }
        if flags & FLAG_MULTILINE != 0 {
            s.append("m");
        }
        if flags & FLAG_DOT_ALL != 0 {
            s.append("s");
        }
        if flags & FLAG_EXTENDED != 0 {
            s.append("x");
        }
        s.append(")");
    }
    s.append(pattern);
    proof {
        assert(s@ =~= flagged_pattern(pattern@, flags));
    }
    s
}

} // verus!
