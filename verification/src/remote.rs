use vstd::prelude::*;
use crate::errors::MemMapError;
use crate::region::MemMap;
use crate::scan::{match_at, scan_buffer};

verus! {

/// A zero-initialized buffer of the given length.
fn zero_vec(n: usize) -> (v: Vec<u8>)
    ensures
        v@.len() == n,
        forall|k: int| 0 <= k < n ==> v@[k] == 0,
{
    let mut v: Vec<u8> = Vec::new();
    let mut i: usize = 0;
    while i < n
        invariant
            0 <= i <= n,
            v@.len() == i,
            forall|k: int| 0 <= k < i ==> v@[k] == 0,
        decreases n - i,
    {
        v.push(0);
        i = i + 1;
    }
    v
}

/// Relies on nix::sys::uio::process_vm_readv: one best-effort transfer from
/// the target's address space into the local buffer.  The buffer keeps its
/// length; how much of it the call filled, and with what, depends on the
/// target process at that moment, so nothing is claimed of the contents.  On
/// failure the raw OS error code comes back.
#[verifier::external_body]
fn vm_read_into(pid: i32, addr: usize, buf: &mut Vec<u8>) -> (r: Result<usize, i32>)
    ensures
        final(buf)@.len() == old(buf)@.len(),
{
    let len = buf.len();
    let mut local = [std::io::IoSliceMut::new(buf.as_mut_slice())];
    let remote = nix::sys::uio::RemoteIoVec { base: addr, len };
    match nix::sys::uio::process_vm_readv(nix::unistd::Pid::from_raw(pid), &mut local, &[remote]) {
        Ok(n) => Ok(n),
        Err(e) => Err(e as i32),
    }
}

/// Relies on nix::sys::uio::process_vm_writev: one best-effort transfer of
/// the buffer to the given address of the target's address space.  The
/// reported count is what the OS transferred: never more than what either
/// side offered.  On failure the raw OS error code comes back.
#[verifier::external_body]
fn vm_write_from(pid: i32, addr: usize, vsize: usize, buf: &Vec<u8>) -> (r: Result<usize, i32>)
    ensures
        r is Ok ==> r->Ok_0 <= vsize && r->Ok_0 <= buf@.len(),
{
    let local = [std::io::IoSlice::new(buf.as_slice())];
    let remote = nix::sys::uio::RemoteIoVec { base: addr, len: vsize };
    match nix::sys::uio::process_vm_writev(nix::unistd::Pid::from_raw(pid), &local, &[remote]) {
        Ok(n) => Ok(n),
        Err(e) => Err(e as i32),
    }
}

impl MemMap {
    /// One best-effort cross-address-space read of `[addr, addr + vsize)` of
    /// the target process into a fresh zero-initialized buffer of exactly
    /// `vsize` bytes.  Untransferred bytes read back as zero; a partial
    /// transfer is not distinguished from a full one.  A failed system call
    /// is reported as `Errno` and aborts nothing else.
    pub fn read_vm(pid: i32, addr: usize, vsize: usize) -> (r: Result<Vec<u8>, MemMapError>)
        ensures
            r is Ok ==> r->Ok_0@.len() == vsize,
            r is Err ==> r->Err_0 is Errno,
    {
        let mut buf = zero_vec(vsize);
        match vm_read_into(pid, addr, &mut buf) {
            Ok(_) => Ok(buf),
            Err(code) => Err(MemMapError::Errno(code)),
        }
    }

    /// One best-effort cross-address-space write of `buf` to `addr` of the
    /// target process, asking for `vsize` bytes.  Returns the OS-reported
    /// transferred count, which never exceeds the request nor the buffer; a
    /// mismatch with the request is the caller's to notice.  A failed system
    /// call is reported as `Errno`.
    pub fn write_vm(pid: i32, addr: usize, vsize: usize, buf: Vec<u8>) -> (r: Result<
        usize,
        MemMapError,
    >)
        ensures
            r is Ok ==> r->Ok_0 <= vsize && r->Ok_0 <= buf@.len(),
            r is Err ==> r->Err_0 is Errno,
    {
        match vm_write_from(pid, addr, vsize, &buf) {
            Ok(n) => Ok(n),
            Err(code) => Err(MemMapError::Errno(code)),
        }
    }

    /// Reads `[addr, addr + vsize)` of the target process best-effort — a
    /// failed read leaves the zero-initialized buffer as it is — and scans
    /// the buffer for `buf`.  Whatever the read returned, the result is the
    /// complete, strictly ascending listing of the absolute addresses at
    /// which the pattern occurs in some buffer of length `vsize`, every one
    /// of them inside `[addr, addr + vsize)`.
    pub fn scan_mem(pid: i32, addr: usize, vsize: usize, buf: &[u8]) -> (r: Vec<usize>)
        requires
            buf@.len() >= 1,
            addr + vsize <= usize::MAX,
        ensures
            forall|k: int|
                0 <= k < r@.len() ==> addr <= #[trigger] r@[k] && r@[k] + buf@.len() <= addr
                    + vsize,
            forall|k1: int, k2: int| 0 <= k1 < k2 < r@.len() ==> r@[k1] < r@[k2],
            exists|data: Seq<u8>|
                {
                    &&& data.len() == vsize
                    &&& (forall|k: int|
                        0 <= k < r@.len() ==> match_at(data, buf@, #[trigger] r@[k] - addr))
                    &&& (forall|i: int|
                        match_at(data, buf@, i) ==> r@.contains((addr + i) as usize))
                },
    {
        let data = match Self::read_vm(pid, addr, vsize) {
            Ok(d) => d,
            Err(_) => zero_vec(vsize),
        };
        let r = scan_buffer(data.as_slice(), addr, buf);
        proof {
            assert(data@.len() == vsize);
            assert((forall|k: int|
                0 <= k < r@.len() ==> match_at(data@, buf@, #[trigger] r@[k] - addr)) && (forall|
                i: int,
            |
                match_at(data@, buf@, i) ==> r@.contains((addr + i) as usize)));
        }
        r
    }
}

} // verus!
