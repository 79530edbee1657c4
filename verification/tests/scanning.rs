use procpatch::scan::scan_buffer;

#[test]
fn test_overlapping_matches() {
    let hits = scan_buffer(b"AAAA", 0, b"AA");
    assert_eq!(hits, vec![0, 1, 2]);
}

#[test]
fn test_matches_are_absolute_addresses() {
    let hits = scan_buffer(b"AAAA", 0x7000, b"AA");
    assert_eq!(hits, vec![0x7000, 0x7001, 0x7002]);
}

#[test]
fn test_no_occurrence_is_empty() {
    let hits = scan_buffer(b"ABCDEFGH", 0x1000, b"XY");
    assert_eq!(hits, Vec::<usize>::new());
}

#[test]
fn test_pattern_longer_than_buffer() {
    let hits = scan_buffer(b"AB", 0, b"ABC");
    assert_eq!(hits, Vec::<usize>::new());
}

#[test]
fn test_single_match_at_offset() {
    let hits = scan_buffer(b"XX-ABCDE-YY", 0x1000, b"ABCDE");
    assert_eq!(hits, vec![0x1003]);
}

#[test]
fn test_whole_buffer_match() {
    let hits = scan_buffer(b"ABC", 5, b"ABC");
    assert_eq!(hits, vec![5]);
}
