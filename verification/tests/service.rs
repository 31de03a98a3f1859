use regex_registry::{
    compile_pattern, dispose_pattern, find_all_matches, find_match, get_last_error, init,
};

#[test]
fn single_match_with_capture() {
    let mut store = init();
    let h = compile_pattern(&mut store, "a+", 0);
    assert_eq!(h, 1);
    let r = find_match(&store, h, "baaab", 0);
    assert!(r.found());
    assert_eq!(r.start(), 1);
    assert_eq!(r.end(), 4);
    assert_eq!(r.captures(), vec![1, 4]);
}

#[test]
fn optional_group_reports_sentinel() {
    let mut store = init();
    let h = compile_pattern(&mut store, "(a)(b)?", 0);
    assert_ne!(h, 0);
    let r = find_match(&store, h, "a", 0);
    assert!(r.found());
    assert_eq!(r.start(), 0);
    assert_eq!(r.end(), 1);
    assert_eq!(r.captures(), vec![0, 1, 0, 1, u32::MAX, u32::MAX]);
}

#[test]
fn zero_width_matches_scan_whole_text() {
    let mut store = init();
    let h = compile_pattern(&mut store, "x*", 0);
    assert_ne!(h, 0);
    let spans = find_all_matches(&store, h, "abc");
    assert_eq!(spans, vec![0, 0, 1, 1, 2, 2]);
}

#[test]
fn invalid_pattern_yields_zero_handle() {
    let mut store = init();
    let h = compile_pattern(&mut store, "[", 0);
    assert_eq!(h, 0);
    let r = find_match(&store, 0, "text", 0);
    assert!(!r.found());
    assert_eq!(r.start(), 0);
    assert_eq!(r.end(), 0);
    assert!(r.captures().is_empty());
}

#[test]
fn failed_compile_consumes_no_handle() {
    let mut store = init();
    assert_eq!(compile_pattern(&mut store, "(", 0), 0);
    assert_eq!(compile_pattern(&mut store, "ok", 0), 1);
}

#[test]
fn offset_past_end_is_a_miss() {
    let mut store = init();
    let h = compile_pattern(&mut store, "l+", 0);
    assert_ne!(h, 0);
    let r = find_match(&store, h, "hello", 10);
    assert!(!r.found());
    assert_eq!(r.start(), 0);
    assert_eq!(r.end(), 0);
}

#[test]
fn handles_are_distinct_and_never_reused() {
    let mut store = init();
    let h1 = compile_pattern(&mut store, "a", 0);
    let h2 = compile_pattern(&mut store, "b", 0);
    assert_eq!(h1, 1);
    assert_eq!(h2, 2);
    dispose_pattern(&mut store, h1);
    let h3 = compile_pattern(&mut store, "c", 0);
    assert_eq!(h3, 3);
    assert!(h1 != h2 && h1 != h3 && h2 != h3);
}

#[test]
fn dispose_is_idempotent_and_tolerates_unknown_handles() {
    let mut store = init();
    let h1 = compile_pattern(&mut store, "a+", 0);
    let h2 = compile_pattern(&mut store, "b+", 0);
    dispose_pattern(&mut store, h1);
    dispose_pattern(&mut store, h1);
    dispose_pattern(&mut store, 999);
    dispose_pattern(&mut store, 0);
    let r = find_match(&store, h2, "abbba", 0);
    assert!(r.found());
    assert_eq!(r.start(), 1);
    assert_eq!(r.end(), 4);
}

#[test]
fn offsets_are_absolute_and_consistent_with_slicing() {
    let mut store = init();
    let h = compile_pattern(&mut store, "(a+)b", 0);
    assert_ne!(h, 0);
    let shifted = find_match(&store, h, "xxaab", 2);
    let sliced = find_match(&store, h, "aab", 0);
    assert!(shifted.found() && sliced.found());
    assert_eq!(shifted.start(), sliced.start() + 2);
    assert_eq!(shifted.end(), sliced.end() + 2);
    let expect: Vec<u32> = sliced.captures().iter().map(|o| o + 2).collect();
    assert_eq!(shifted.captures(), expect);
}

#[test]
fn disposed_handle_never_matches() {
    let mut store = init();
    let h = compile_pattern(&mut store, "a", 0);
    assert!(find_match(&store, h, "a", 0).found());
    dispose_pattern(&mut store, h);
    assert!(!find_match(&store, h, "a", 0).found());
    assert!(find_all_matches(&store, h, "aaa").is_empty());
}

#[test]
fn ignore_case_flag() {
    let mut store = init();
    let plain = compile_pattern(&mut store, "abc", 0);
    let ci = compile_pattern(&mut store, "abc", 1);
    assert!(!find_match(&store, plain, "xABCx", 0).found());
    let r = find_match(&store, ci, "xABCx", 0);
    assert!(r.found());
    assert_eq!(r.start(), 1);
    assert_eq!(r.end(), 4);
}

#[test]
fn multiline_flag() {
    let mut store = init();
    let h = compile_pattern(&mut store, "^b", 4);
    assert_ne!(h, 0);
    let r = find_match(&store, h, "a\nb", 0);
    assert!(r.found());
    assert_eq!(r.start(), 2);
    assert_eq!(r.end(), 3);
}

#[test]
fn dot_matches_newline_flag() {
    let mut store = init();
    let plain = compile_pattern(&mut store, "a.b", 0);
    let dotall = compile_pattern(&mut store, "a.b", 8);
    assert!(!find_match(&store, plain, "a\nb", 0).found());
    assert!(find_match(&store, dotall, "a\nb", 0).found());
}

#[test]
fn extended_flag_ignores_whitespace() {
    let mut store = init();
    let h = compile_pattern(&mut store, "a b", 2);
    assert_ne!(h, 0);
    let r = find_match(&store, h, "ab", 0);
    assert!(r.found());
    assert_eq!(r.end(), 2);
}

#[test]
fn unrecognized_flag_bits_are_ignored() {
    let mut store = init();
    let h = compile_pattern(&mut store, "abc", 16);
    assert_ne!(h, 0);
    let r = find_match(&store, h, "abc", 0);
    assert!(r.found());
    assert_eq!(r.end(), 3);
}

#[test]
fn combined_flags_apply_independently() {
    let mut store = init();
    let h = compile_pattern(&mut store, "^a.b", 1 | 4 | 8);
    assert_ne!(h, 0);
    let r = find_match(&store, h, "x\nA\nB", 0);
    assert!(r.found());
    assert_eq!(r.start(), 2);
    assert_eq!(r.end(), 5);
}

#[test]
fn offset_inside_multibyte_character_is_a_miss() {
    let mut store = init();
    let h = compile_pattern(&mut store, "l", 0);
    // "héllo": 'é' occupies bytes 1 and 2, the first 'l' is byte 3.
    assert!(!find_match(&store, h, "héllo", 2).found());
    let r = find_match(&store, h, "héllo", 3);
    assert!(r.found());
    assert_eq!(r.start(), 3);
}

#[test]
fn zero_width_scan_advances_whole_characters() {
    let mut store = init();
    let h = compile_pattern(&mut store, "x*", 0);
    let spans = find_all_matches(&store, h, "éb");
    assert_eq!(spans, vec![0, 0, 2, 2]);
}

#[test]
fn scan_returns_nonoverlapping_spans_in_order() {
    let mut store = init();
    let h = compile_pattern(&mut store, "a+", 0);
    let spans = find_all_matches(&store, h, "aa b aaa");
    assert_eq!(spans, vec![0, 2, 5, 8]);
}

#[test]
fn scan_mixes_zero_width_and_real_matches_in_order() {
    let mut store = init();
    let h = compile_pattern(&mut store, "a*", 0);
    let spans = find_all_matches(&store, h, "baab");
    assert_eq!(spans, vec![0, 0, 1, 3, 3, 3]);
}

#[test]
fn scan_with_unknown_handle_is_empty() {
    let store = init();
    assert!(find_all_matches(&store, 7, "aaa").is_empty());
}

#[test]
fn backreference_patterns_are_supported() {
    let mut store = init();
    let h = compile_pattern(&mut store, r"(a+)\1", 0);
    assert_ne!(h, 0);
    let r = find_match(&store, h, "xaaaa", 0);
    assert!(r.found());
    assert_eq!(r.start(), 1);
    assert_eq!(r.end(), 5);
    assert_eq!(r.captures(), vec![1, 5, 1, 3]);
}

#[test]
fn empty_pattern_matches_at_offset() {
    let mut store = init();
    let h = compile_pattern(&mut store, "", 0);
    assert_ne!(h, 0);
    let r = find_match(&store, h, "ab", 1);
    assert!(r.found());
    assert_eq!(r.start(), 1);
    assert_eq!(r.end(), 1);
    assert_eq!(r.captures(), vec![1, 1]);
}

#[test]
fn last_error_is_always_zero() {
    assert_eq!(get_last_error(), 0);
}
