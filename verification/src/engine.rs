use vstd::prelude::*;
use crate::region::{MemMap, RegionView};

verus! {

/// The byte string `[heap]`, the pseudo-path of the heap mapping.
pub open spec fn heap_tag() -> Seq<u8> {
    seq![91u8, 104u8, 101u8, 97u8, 112u8, 93u8]
}

/// The regions the patch pass works on: writable, and mapped under the heap
/// pseudo-path.
pub open spec fn spec_region_selected(g: RegionView) -> bool {
    g.modes.contains(119) && g.mapping.len() >= 6 && g.mapping.subrange(0, 6) == heap_tag()
}

/// Decides whether a region is a writable heap region.
pub fn region_selected(region: &MemMap) -> (r: bool)
    ensures
        r == spec_region_selected(region@),
{
    let mut writable = false;
    let mut i: usize = 0;
    while i < region.modes.len()
        invariant
            0 <= i <= region.modes@.len(),
            writable == exists|k: int| 0 <= k < i && region.modes@[k] == 119,
        decreases region.modes@.len() - i,
    {
        if region.modes[i] == 119 {
            writable = true;
        }
        i = i + 1;
    }
    if !writable {
        proof {
            assert(!region.modes@.contains(119));
        }
        return false;
    }
    proof {
        assert(region.modes@.contains(119)) by {
            let k = choose|k: int| 0 <= k < region.modes@.len() && region.modes@[k] == 119;
            assert(region.modes@[k] == 119);
        }
    }
    if region.mapping.len() < 6 {
        return false;
    }
    let m = &region.mapping;
    let tagged = m[0] == 91 && m[1] == 104 && m[2] == 101 && m[3] == 97 && m[4] == 112 && m[5]
        == 93;
    proof {
        if tagged {
            assert(m@.subrange(0, 6) =~= heap_tag());
        } else {
            assert(m@.subrange(0, 6) != heap_tag()) by {
                if m@.subrange(0, 6) == heap_tag() {
                    assert(m@[0] == m@.subrange(0, 6)[0]);
                    assert(m@[1] == m@.subrange(0, 6)[1]);
                    assert(m@[2] == m@.subrange(0, 6)[2]);
                    assert(m@[3] == m@.subrange(0, 6)[3]);
                    assert(m@[4] == m@.subrange(0, 6)[4]);
                    assert(m@[5] == m@.subrange(0, 6)[5]);
                }
            }
        }
    }
    tagged
}

/// One performed patch: the absolute address written to, and how many bytes
/// the OS reported as transferred there.
pub struct PatchWrite {
    pub addr: usize,
    pub written: usize,
}

/// Runs the find/replace pass over an already-parsed map snapshot: every
/// selected (writable heap) region is read best-effort, scanned for `find`,
/// and each match is overwritten with `replace` — only the matched prefix,
/// since the replacement is no longer than the pattern.  One region's failed
/// read and one match's failed write are skipped, and the pass goes on.
///
/// Each reported write lies inside a selected region of the snapshot, at an
/// address where a scan saw the pattern start, and its count never exceeds
/// the replacement's length.
pub fn patch_regions(pid: i32, regions: &Vec<MemMap>, find: &[u8], replace: &[u8]) -> (writes: Vec<
    PatchWrite,
>)
    requires
        find@.len() >= 1,
        replace@.len() <= find@.len(),
        forall|j: int| 0 <= j < regions@.len() ==> (#[trigger] regions@[j]).wf(),
    ensures
        forall|k: int|
            0 <= k < writes@.len() ==> (#[trigger] writes@[k]).written <= replace@.len()
                && exists|j: int|
                {
                    &&& 0 <= j < regions@.len()
                    &&& spec_region_selected(#[trigger] regions@[j]@)
                    &&& regions@[j]@.start <= writes@[k].addr
                    &&& writes@[k].addr + find@.len() <= regions@[j]@.end
                },
{
    let mut writes: Vec<PatchWrite> = Vec::new();
    let mut j: usize = 0;
    while j < regions.len()
        invariant
            0 <= j <= regions@.len(),
            find@.len() >= 1,
            replace@.len() <= find@.len(),
            forall|t: int| 0 <= t < regions@.len() ==> (#[trigger] regions@[t]).wf(),
            forall|k: int|
                0 <= k < writes@.len() ==> (#[trigger] writes@[k]).written <= replace@.len()
                    && exists|t: int|
                    {
                        &&& 0 <= t < regions@.len()
                        &&& spec_region_selected(#[trigger] regions@[t]@)
                        &&& regions@[t]@.start <= writes@[k].addr
                        &&& writes@[k].addr + find@.len() <= regions@[t]@.end
                    },
        decreases regions@.len() - j,
    {
        let region = &regions[j];
        if region_selected(region) {
            let start = region.range.0;
            let vsize = region.size;
            proof {
                assert(start + vsize == region.range.1 <= usize::MAX);
            }
            let matches = MemMap::scan_mem(pid, start, vsize, find);
            let mut m: usize = 0;
            while m < matches.len()
                invariant
                    0 <= m <= matches@.len(),
                    0 <= j < regions@.len(),
                    find@.len() >= 1,
                    replace@.len() <= find@.len(),
                    spec_region_selected(regions@[j as int]@),
                    regions@[j as int].wf(),
                    start == regions@[j as int].range.0,
                    vsize == regions@[j as int].size,
                    forall|k: int|
                        0 <= k < matches@.len() ==> start <= #[trigger] matches@[k] && matches@[k]
                            + find@.len() <= start + vsize,
                    forall|k: int|
                        0 <= k < writes@.len() ==> (#[trigger] writes@[k]).written
                            <= replace@.len() && exists|t: int|
                            {
                                &&& 0 <= t < regions@.len()
                                &&& spec_region_selected(#[trigger] regions@[t]@)
                                &&& regions@[t]@.start <= writes@[k].addr
                                &&& writes@[k].addr + find@.len() <= regions@[t]@.end
                            },
                decreases matches@.len() - m,
            {
                let addr = matches[m];
                let payload = vstd::slice::slice_to_vec(replace);
                match MemMap::write_vm(pid, addr, payload.len(), payload) {
                    Ok(n) => {
                        writes.push(PatchWrite { addr, written: n });
                        proof {
                            let k = writes@.len() - 1;
                            assert(writes@[k].addr == addr);
                            assert((exists|t: int|
                                {
                                    &&& 0 <= t < regions@.len()
                                    &&& spec_region_selected(#[trigger] regions@[t]@)
                                    &&& regions@[t]@.start <= writes@[k].addr
                                    &&& writes@[k].addr + find@.len() <= regions@[t]@.end
                                })) by {
                                assert(spec_region_selected(regions@[j as int]@));
                                assert(regions@[j as int]@.start <= addr);
                                assert(addr + find@.len() <= regions@[j as int]@.end);
                            }
                        }
                    },
                    Err(_) => {},
                }
                m = m + 1;
            }
        }
        j = j + 1;
    }
    writes
}

} // verus!
