use regex_registry::matching::{adjust_captures, next_boundary};

#[test]
fn capture_adjustment_shifts_and_keeps_sentinels() {
    let groups: Vec<Option<(usize, usize)>> = vec![Some((0, 4)), None, Some((2, 3))];
    assert_eq!(
        adjust_captures(&groups, 10),
        vec![10, 14, u32::MAX, u32::MAX, 12, 13]
    );
    assert_eq!(
        adjust_captures(&groups, 0),
        vec![0, 4, u32::MAX, u32::MAX, 2, 3]
    );
    let empty: Vec<Option<(usize, usize)>> = Vec::new();
    assert!(adjust_captures(&empty, 5).is_empty());
}

#[test]
fn next_boundary_steps_over_whole_characters() {
    // "aéz": 'a' is byte 0, 'é' occupies bytes 1 and 2, 'z' is byte 3.
    assert_eq!(next_boundary("aéz", 0), 1);
    assert_eq!(next_boundary("aéz", 1), 3);
    assert_eq!(next_boundary("aéz", 2), 3);
    assert_eq!(next_boundary("aéz", 3), 4);
    assert_eq!(next_boundary("ab", 0), 1);
}
