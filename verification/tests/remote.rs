use procpatch::engine::{patch_regions, region_selected};
use procpatch::errors::MemMapError;
use procpatch::region::MemMap;

fn own_pid() -> i32 {
    nix::unistd::getpid().as_raw()
}

#[test]
fn test_write_then_read_back() {
    let pid = own_pid();
    let target: Vec<u8> = vec![0u8; 32];
    let addr = target.as_ptr() as usize;
    let payload = b"HELLO".to_vec();
    let n = MemMap::write_vm(pid, addr, payload.len(), payload.clone()).unwrap();
    assert_eq!(n, 5);
    let back = MemMap::read_vm(pid, addr, payload.len()).unwrap();
    assert_eq!(back, payload);
}

#[test]
fn test_read_vm_reports_length_requested() {
    let pid = own_pid();
    let target: Vec<u8> = b"0123456789".to_vec();
    let addr = target.as_ptr() as usize;
    let back = MemMap::read_vm(pid, addr, 4).unwrap();
    assert_eq!(back.len(), 4);
    assert_eq!(back, b"0123".to_vec());
}

#[test]
fn test_read_vm_no_such_process_is_errno() {
    let r = MemMap::read_vm(-1, 0x1000, 16);
    assert!(matches!(r, Err(MemMapError::Errno(_))));
}

#[test]
fn test_write_vm_no_such_process_is_errno() {
    let r = MemMap::write_vm(-1, 0x1000, 4, b"ABCD".to_vec());
    assert!(matches!(r, Err(MemMapError::Errno(_))));
}

#[test]
fn test_scan_mem_finds_own_buffer() {
    let pid = own_pid();
    let buf: Vec<u8> = b"XX-ABCDE-YY".to_vec();
    let addr = buf.as_ptr() as usize;
    let hits = MemMap::scan_mem(pid, addr, buf.len(), b"ABCDE");
    assert_eq!(hits, vec![addr + 3]);
}

#[test]
fn test_scan_mem_unreadable_target_sees_zeroes() {
    let hits = MemMap::scan_mem(-1, 0x1000, 16, b"ZZ");
    assert_eq!(hits, Vec::<usize>::new());
}

#[test]
fn test_end_to_end_patch_cycle() {
    let pid = own_pid();
    let buf: Vec<u8> = b"XX-ABCDE-YY".to_vec();
    let addr = buf.as_ptr() as usize;
    let hits = MemMap::scan_mem(pid, addr, buf.len(), b"ABCDE");
    assert_eq!(hits, vec![addr + 3]);
    let n = MemMap::write_vm(pid, addr + 3, 5, b"EDCBA".to_vec()).unwrap();
    assert_eq!(n, 5);
    let back = MemMap::read_vm(pid, addr, buf.len()).unwrap();
    assert_eq!(back, b"XX-EDCBA-YY".to_vec());
}

#[test]
fn test_region_selected_needs_write_and_heap() {
    let heap = MemMap {
        range: (0, 16),
        size: 16,
        modes: vec![b'r', b'w'],
        offset: 0,
        inode_id: 0,
        versions: (Vec::new(), Vec::new()),
        mapping: b"[heap]".to_vec(),
    };
    assert!(region_selected(&heap));
    let read_only = MemMap { modes: vec![b'r'], ..heap };
    assert!(!region_selected(&read_only));
    let elsewhere = MemMap { modes: vec![b'r', b'w'], mapping: b"[stack]".to_vec(), ..read_only };
    assert!(!region_selected(&elsewhere));
}

#[test]
fn test_patch_regions_rewrites_matches() {
    let pid = own_pid();
    let buf: Vec<u8> = b"..ABCDE..ABCDE.".to_vec();
    let addr = buf.as_ptr() as usize;
    let region = MemMap {
        range: (addr, addr + buf.len()),
        size: buf.len(),
        modes: vec![b'r', b'w', b'p'],
        offset: 0,
        inode_id: 0,
        versions: (Vec::new(), Vec::new()),
        mapping: b"[heap]".to_vec(),
    };
    let regions = vec![region];
    let writes = patch_regions(pid, &regions, b"ABCDE", b"edcba");
    assert_eq!(writes.len(), 2);
    assert_eq!(writes[0].addr, addr + 2);
    assert_eq!(writes[0].written, 5);
    assert_eq!(writes[1].addr, addr + 9);
    assert_eq!(writes[1].written, 5);
    let back = MemMap::read_vm(pid, addr, buf.len()).unwrap();
    assert_eq!(back, b"..edcba..edcba.".to_vec());
}

#[test]
fn test_patch_regions_skips_unselected_regions() {
    let pid = own_pid();
    let buf: Vec<u8> = b"..ABCDE.".to_vec();
    let addr = buf.as_ptr() as usize;
    let region = MemMap {
        range: (addr, addr + buf.len()),
        size: buf.len(),
        modes: vec![b'r'],
        offset: 0,
        inode_id: 0,
        versions: (Vec::new(), Vec::new()),
        mapping: b"[heap]".to_vec(),
    };
    let regions = vec![region];
    let writes = patch_regions(pid, &regions, b"ABCDE", b"edcba");
    assert_eq!(writes.len(), 0);
    let back = MemMap::read_vm(pid, addr, buf.len()).unwrap();
    assert_eq!(back, b"..ABCDE.".to_vec());
}
