use procpatch::errors::MemMapError;
use procpatch::region::MemMap;

#[test]
fn test_two_lines_two_regions() {
    let text = b"55a000-55b000 rw-p 1000 08:01 4242 /usr/bin/demo\n7f00aa000-7f00ab000 r-xp 0 0:0 0\n";
    let map = MemMap::parse_maps(text).unwrap();
    assert_eq!(map.len(), 2);

    assert_eq!(map[0].range, (0x55a000, 0x55b000));
    assert_eq!(map[0].size, 0x55b000 - 0x55a000);
    assert_eq!(map[0].modes, vec![b'r', b'w']);
    assert_eq!(map[0].offset, 0x1000);
    assert_eq!(map[0].versions, (vec![b'0', b'8'], vec![b'0', b'1']));
    assert_eq!(map[0].inode_id, 4242);
    assert_eq!(map[0].mapping, b"/usr/bin/demo".to_vec());

    assert_eq!(map[1].range, (0x7f00aa000, 0x7f00ab000));
    assert_eq!(map[1].size, 0x1000);
    assert_eq!(map[1].modes, vec![b'r', b'x']);
    assert_eq!(map[1].offset, 0);
    assert_eq!(map[1].versions, (vec![b'0'], vec![b'0']));
    assert_eq!(map[1].inode_id, 0);
    assert_eq!(map[1].mapping, Vec::<u8>::new());
}

#[test]
fn test_sizes_match_ranges() {
    let text = b"0-10 ---- 0 0:0 0\nff-100 rwxs 0 0:0 -5 [stack]\n";
    let map = MemMap::parse_maps(text).unwrap();
    assert_eq!(map.len(), 2);
    for region in &map {
        assert_eq!(region.size, region.range.1 - region.range.0);
    }
    assert_eq!(map[1].inode_id, -5);
    assert_eq!(map[1].mapping, b"[stack]".to_vec());
}

#[test]
fn test_short_line_is_format_error() {
    let text = b"55a000-55b000 rw-p 1000 08:01 4242\n7f00-7f10 rw-p 0\n";
    let r = MemMap::parse_maps(text);
    assert!(matches!(r, Err(MemMapError::OtherError(_))));
}

#[test]
fn test_mode_token_keeps_permissions_only() {
    let text = b"0-1 rw-p 0 0:0 0\n0-1 ---- 0 0:0 0\n0-1 rwxs 0 0:0 0\n";
    let map = MemMap::parse_maps(text).unwrap();
    assert_eq!(map[0].modes, vec![b'r', b'w']);
    assert_eq!(map[1].modes, Vec::<u8>::new());
    assert_eq!(map[2].modes, vec![b'r', b'w', b'x', b's']);
}

#[test]
fn test_bad_hex_is_numeric_error() {
    let text = b"55g000-55b000 rw-p 0 0:0 0\n";
    assert!(matches!(MemMap::parse_maps(text), Err(MemMapError::ParseIntError)));
}

#[test]
fn test_bad_inode_is_numeric_error() {
    let text = b"0-1 rw-p 0 0:0 12c\n";
    assert!(matches!(MemMap::parse_maps(text), Err(MemMapError::ParseIntError)));
}

#[test]
fn test_range_without_dash_is_numeric_error() {
    let text = b"55a000 rw-p 0 0:0 0 extra\n";
    assert!(matches!(MemMap::parse_maps(text), Err(MemMapError::ParseIntError)));
}

#[test]
fn test_backwards_range_is_format_error() {
    let text = b"10-f rw-p 0 0:0 0\n";
    assert!(matches!(MemMap::parse_maps(text), Err(MemMapError::OtherError(_))));
}

#[test]
fn test_empty_text_is_empty_map() {
    let map = MemMap::parse_maps(b"").unwrap();
    assert_eq!(map.len(), 0);
}

#[test]
fn test_no_trailing_newline() {
    let text = b"0-1 rw-p 0 0:0 0";
    let map = MemMap::parse_maps(text).unwrap();
    assert_eq!(map.len(), 1);
}

#[test]
fn test_device_without_colon_is_empty_pair() {
    let text = b"0-1 rw-p 0 00 0\n";
    let map = MemMap::parse_maps(text).unwrap();
    assert_eq!(map[0].versions, (Vec::<u8>::new(), Vec::<u8>::new()));
}

#[test]
fn test_one_bad_line_yields_zero_regions() {
    let good = b"0-1 rw-p 0 0:0 0\n";
    assert_eq!(MemMap::parse_maps(good).unwrap().len(), 1);
    let mixed = b"0-1 rw-p 0 0:0 0\nnot a real map line\n0-1 rw-p 0 0:0 0\n";
    assert!(MemMap::parse_maps(mixed).is_err());
}

#[test]
fn test_hex_overflow_is_numeric_error() {
    let text = b"0-1ffffffffffffffff0 rw-p 0 0:0 0\n";
    assert!(matches!(MemMap::parse_maps(text), Err(MemMapError::ParseIntError)));
}

#[test]
fn test_hex_sign_is_numeric_error() {
    let text = b"+0-1 rw-p 0 0:0 0\n";
    assert!(matches!(MemMap::parse_maps(text), Err(MemMapError::ParseIntError)));
}

#[test]
fn test_inode_overflow_is_numeric_error() {
    let text = b"0-1 rw-p 0 0:0 2147483648\n";
    assert!(matches!(MemMap::parse_maps(text), Err(MemMapError::ParseIntError)));
}

#[test]
fn test_inode_bounds_parse() {
    let text = b"0-1 rw-p 0 0:0 2147483647\n0-1 rw-p 0 0:0 -2147483648\n0-1 rw-p 0 0:0 +7\n";
    let map = MemMap::parse_maps(text).unwrap();
    assert_eq!(map[0].inode_id, i32::MAX);
    assert_eq!(map[1].inode_id, i32::MIN);
    assert_eq!(map[2].inode_id, 7);
}

#[test]
fn test_pids_empty_output_is_no_match() {
    assert_eq!(MemMap::parse_pids(b""), Vec::<i32>::new());
}

#[test]
fn test_pids_single_match_is_singleton() {
    assert_eq!(MemMap::parse_pids(b"4242\n"), vec![4242]);
}

#[test]
fn test_pids_many_in_reported_order() {
    assert_eq!(MemMap::parse_pids(b"12 9034 7\n"), vec![12, 9034, 7]);
}

#[test]
fn test_pids_non_numeric_tokens_passed_over() {
    assert_eq!(MemMap::parse_pids(b"12 x 34"), vec![12, 34]);
    assert_eq!(MemMap::parse_pids(b"99999999999999999999 8\n"), vec![8]);
}
